//! The player registry: the authoritative, insertion-ordered table of
//! registered players. Names are unique and ASCII; a player enters with a
//! clean slate and is mutated only through the registry's operations.

use vstd::prelude::*;

use crate::entropy::random_below;
use crate::messages::{PublicPlayer, SubscribeError, SubscribeResult};

verus! {

/// Whether some player carries the given name.
pub open spec fn has_name(players: Seq<PublicPlayer>, name: Seq<char>) -> bool {
    exists|i: int| 0 <= i < players.len() && (#[trigger] players[i]).name@ == name
}

/// The first index whose player carries the given name.
pub open spec fn first_name_index(players: Seq<PublicPlayer>, name: Seq<char>) -> int {
    choose|i: int|
        0 <= i < players.len() && (#[trigger] players[i]).name@ == name && forall|j: int|
            0 <= j < i ==> (#[trigger] players[j]).name@ != name
}

/// Whether some player is bound to the given connection identity.
pub open spec fn has_stream(players: Seq<PublicPlayer>, id: Seq<char>) -> bool {
    exists|i: int| 0 <= i < players.len() && (#[trigger] players[i]).stream_id@ == id
}

/// The first index whose player is bound to the given connection identity.
pub open spec fn first_stream_index(players: Seq<PublicPlayer>, id: Seq<char>) -> int {
    choose|i: int|
        0 <= i < players.len() && (#[trigger] players[i]).stream_id@ == id && forall|j: int|
            0 <= j < i ==> (#[trigger] players[j]).stream_id@ != id
}

/// Among the indices bound to the identity there is a first one.
proof fn lemma_first_stream_witness(players: Seq<PublicPlayer>, id: Seq<char>, w: int)
    requires
        0 <= w < players.len(),
        players[w].stream_id@ == id,
    ensures
        exists|i: int|
            0 <= i < players.len() && (#[trigger] players[i]).stream_id@ == id && forall|j: int|
                0 <= j < i ==> (#[trigger] players[j]).stream_id@ != id,
    decreases w,
{
    if forall|j: int| 0 <= j < w ==> (#[trigger] players[j]).stream_id@ != id {
        assert(0 <= w < players.len() && players[w].stream_id@ == id && forall|j: int|
            0 <= j < w ==> (#[trigger] players[j]).stream_id@ != id);
    } else {
        let j = choose|j: int| 0 <= j < w && (#[trigger] players[j]).stream_id@ == id;
        lemma_first_stream_witness(players, id, j);
    }
}

/// The first index bound to a present identity is a well-defined index,
/// is bound to it, and no earlier index is.
pub proof fn lemma_first_stream_index(players: Seq<PublicPlayer>, id: Seq<char>)
    requires
        has_stream(players, id),
    ensures
        0 <= first_stream_index(players, id) < players.len(),
        players[first_stream_index(players, id)].stream_id@ == id,
        forall|j: int|
            0 <= j < first_stream_index(players, id) ==> (#[trigger] players[j]).stream_id@ != id,
{
    let w = choose|i: int| 0 <= i < players.len() && (#[trigger] players[i]).stream_id@ == id;
    lemma_first_stream_witness(players, id, w);
}

/// Whether some player is still active.
pub open spec fn has_active(players: Seq<PublicPlayer>) -> bool {
    exists|i: int| 0 <= i < players.len() && (#[trigger] players[i]).is_active
}

/// What a Subscribe under this name earns: rejection for a non-ASCII
/// name, rejection for a name already present, acceptance otherwise.
pub open spec fn register_outcome(players: Seq<PublicPlayer>, name: Seq<char>) -> SubscribeResult {
    if !vstd::utf8::is_ascii_chars(name) {
        SubscribeResult::Rejected(SubscribeError::InvalidName)
    } else if has_name(players, name) {
        SubscribeResult::Rejected(SubscribeError::AlreadyRegistered)
    } else {
        SubscribeResult::Accepted
    }
}

/// A player's stats after one settled round: score down by one on
/// failure, one more step, the elapsed time added.
pub open spec fn updated_player(p: PublicPlayer, success: bool, elapsed_ms: u64) -> PublicPlayer {
    PublicPlayer {
        score: if success {
            p.score
        } else {
            (p.score - 1) as i32
        },
        steps: (p.steps + 1) as u32,
        total_used_time_ms: (p.total_used_time_ms + elapsed_ms) as u64,
        ..p
    }
}

/// The counters of the player about to be updated are clear of their
/// machine limits.
pub open spec fn update_fits(players: Seq<PublicPlayer>, id: Seq<char>, elapsed_ms: u64) -> bool {
    has_stream(players, id) ==> {
        let p = players[first_stream_index(players, id)];
        &&& p.score > i32::MIN
        &&& p.steps < u32::MAX
        &&& p.total_used_time_ms + elapsed_ms <= u64::MAX
    }
}

/// The registry of players, in insertion order.
pub struct Registry {
    pub players: Vec<PublicPlayer>,
}

impl Registry {
    /// Names are pairwise distinct and ASCII.
    pub open spec fn wf(&self) -> bool {
        &&& forall|i: int, j: int|
            0 <= i < j < self.players@.len() ==> (#[trigger] self.players@[i]).name@ != (
            #[trigger] self.players@[j]).name@
        &&& forall|i: int|
            0 <= i < self.players@.len() ==> vstd::utf8::is_ascii_chars(
                (#[trigger] self.players@[i]).name@,
            )
    }

    /// An empty registry.
    pub fn new() -> (r: Registry)
        ensures
            r.players@.len() == 0,
            r.wf(),
    {
        Registry { players: Vec::new() }
    }

    /// Registers a new player under the given name, bound to the given
    /// connection identity. Rejects a non-ASCII name and a name already
    /// present, changing nothing; otherwise appends a player with score
    /// 0, no steps, no time used, and the active flag set.
    #[verifier::loop_isolation(false)]
    pub fn register(&mut self, name: String, stream_id: String) -> (r: SubscribeResult)
        requires
            old(self).wf(),
        ensures
            final (self).wf(),
            r == register_outcome(old(self).players@, name@),
            r != SubscribeResult::Accepted ==> final (self).players@ == old(self).players@,
            r == SubscribeResult::Accepted ==> {
                &&& final (self).players@.len() == old(self).players@.len() + 1
                &&& forall|i: int|
                    0 <= i < old(self).players@.len() ==> final (self).players@[i] == old(
                        self,
                    ).players@[i]
                &&& final (self).players@.last().name@ == name@
                &&& final (self).players@.last().stream_id@ == stream_id@
                &&& final (self).players@.last().score == 0
                &&& final (self).players@.last().steps == 0
                &&& final (self).players@.last().is_active
                &&& final (self).players@.last().total_used_time_ms == 0
            },
    {
        if !name.as_str().is_ascii() {
            return SubscribeResult::Rejected(SubscribeError::InvalidName);
        }
        let mut i: usize = 0;
        while i < self.players.len()
            invariant
                i <= self.players@.len(),
                forall|j: int| 0 <= j < i ==> (#[trigger] self.players@[j]).name@ != name@,
            decreases self.players@.len() - i,
        {
            if self.players[i].name == name {
                proof {
                    assert(has_name(self.players@, name@));
                }
                return SubscribeResult::Rejected(SubscribeError::AlreadyRegistered);
            }
            i = i + 1;
        }
        proof {
            if has_name(self.players@, name@) {
                let k = choose|k: int|
                    0 <= k < self.players@.len() && (#[trigger] self.players@[k]).name@ == name@;
                assert(false);
            }
        }
        let player = PublicPlayer {
            name,
            stream_id,
            score: 0,
            steps: 0,
            is_active: true,
            total_used_time_ms: 0,
        };
        self.players.push(player);
        SubscribeResult::Accepted
    }

    /// A point-in-time copy of every player, in insertion order.
    pub fn snapshot(&self) -> (r: Vec<PublicPlayer>)
        ensures
            r@ == self.players@,
    {
        let mut r: Vec<PublicPlayer> = Vec::new();
        let mut i: usize = 0;
        while i < self.players.len()
            invariant
                i <= self.players@.len(),
                r@ =~= self.players@.take(i as int),
            decreases self.players@.len() - i,
        {
            r.push(self.players[i].clone());
            proof {
                assert(self.players@.take(i + 1) =~= self.players@.take(i as int).push(
                    self.players@[i as int],
                ));
            }
            i = i + 1;
        }
        proof {
            assert(self.players@.take(self.players@.len() as int) =~= self.players@);
        }
        r
    }

    /// Settles one round for the player bound to the given connection
    /// identity: score down by one on failure, one more step, the elapsed
    /// time added. Returns the updated player, or nothing when no player
    /// is bound to that identity.
    #[verifier::loop_isolation(false)]
    pub fn update_after_challenge(
        &mut self,
        stream_id: &String,
        success: bool,
        elapsed_ms: u64,
    ) -> (r: Option<PublicPlayer>)
        requires
            old(self).wf(),
            update_fits(old(self).players@, stream_id@, elapsed_ms),
        ensures
            final (self).wf(),
            !has_stream(old(self).players@, stream_id@) ==> r is None && final (self).players@
                == old(self).players@,
            has_stream(old(self).players@, stream_id@) ==> {
                let k = first_stream_index(old(self).players@, stream_id@);
                let up = updated_player(old(self).players@[k], success, elapsed_ms);
                &&& r == Some(up)
                &&& final (self).players@ == old(self).players@.update(k, up)
            },
    {
        let ghost players0 = self.players@;
        let mut i: usize = 0;
        while i < self.players.len()
            invariant
                i <= self.players@.len(),
                self.players@ == players0,
                forall|j: int| 0 <= j < i ==> (#[trigger] self.players@[j]).stream_id@ != stream_id@,
            decreases self.players@.len() - i,
        {
            if self.players[i].stream_id == *stream_id {
                proof {
                    assert(self.players@[i as int].stream_id@ == stream_id@);
                    assert(has_stream(players0, stream_id@));
                    assert(first_stream_index(players0, stream_id@) == i);
                    assert(update_fits(players0, stream_id@, elapsed_ms));
                }
                let mut p = self.players[i].clone();
                if !success {
                    p.score = p.score - 1;
                }
                p.steps = p.steps + 1;
                p.total_used_time_ms = p.total_used_time_ms + elapsed_ms;
                self.players[i] = p.clone();
                proof {
                    assert(p == updated_player(players0[i as int], success, elapsed_ms));
                    assert(final (self).players@ == players0.update(
                        i as int,
                        updated_player(players0[i as int], success, elapsed_ms),
                    ));
                    assert forall|a: int, b: int|
                        0 <= a < b < self.players@.len() implies (
                    #[trigger] self.players@[a]).name@ != (#[trigger] self.players@[b]).name@ by {
                        assert(self.players@[a].name@ == players0[a].name@);
                        assert(self.players@[b].name@ == players0[b].name@);
                    }
                }
                return Some(p);
            }
            i = i + 1;
        }
        proof {
            if has_stream(players0, stream_id@) {
                let k = choose|k: int|
                    0 <= k < players0.len() && (#[trigger] players0[k]).stream_id@ == stream_id@;
                assert(false);
            }
        }
        None
    }

    /// The next turn holder: the first player under the nominated name
    /// when one is nominated and present; otherwise a random player among
    /// the active ones.
    #[verifier::loop_isolation(false)]
    pub fn pick_target(&self, explicit_name: &String) -> (r: PublicPlayer)
        requires
            explicit_name@.len() == 0 || !has_name(self.players@, explicit_name@) ==> has_active(
                self.players@,
            ),
        ensures
            explicit_name@.len() > 0 && has_name(self.players@, explicit_name@) ==> r
                == self.players@[first_name_index(self.players@, explicit_name@)],
            !(explicit_name@.len() > 0 && has_name(self.players@, explicit_name@)) ==> exists|
                i: int,
            |
                0 <= i < self.players@.len() && r == (#[trigger] self.players@[i]) && r.is_active,
    {
        if !explicit_name.as_str().is_empty() {
            let mut i: usize = 0;
            while i < self.players.len()
                invariant
                    i <= self.players@.len(),
                    forall|j: int|
                        0 <= j < i ==> (#[trigger] self.players@[j]).name@ != explicit_name@,
                decreases self.players@.len() - i,
            {
                if self.players[i].name == *explicit_name {
                    proof {
                        assert(first_name_index(self.players@, explicit_name@) == i);
                    }
                    return self.players[i].clone();
                }
                i = i + 1;
            }
            proof {
                if has_name(self.players@, explicit_name@) {
                    let k = choose|k: int|
                        0 <= k < self.players@.len() && (#[trigger] self.players@[k]).name@
                            == explicit_name@;
                    assert(false);
                }
            }
        }
        let mut active_indices: Vec<usize> = Vec::new();
        let mut i: usize = 0;
        while i < self.players.len()
            invariant
                i <= self.players@.len(),
                forall|j: int|
                    0 <= j < active_indices@.len() ==> (#[trigger] active_indices@[j]) < i
                        && self.players@[active_indices@[j] as int].is_active,
                has_active(self.players@.take(i as int)) ==> active_indices@.len() > 0,
            decreases self.players@.len() - i,
        {
            if self.players[i].is_active {
                active_indices.push(i);
            }
            proof {
                if has_active(self.players@.take(i + 1)) && active_indices@.len() == 0 {
                    let k = choose|k: int|
                        0 <= k < i + 1 && (#[trigger] self.players@.take(i + 1)[k]).is_active;
                    assert(self.players@[k].is_active);
                    assert(k == i as int);
                    assert(false);
                }
            }
            i = i + 1;
        }
        proof {
            assert(self.players@.take(self.players@.len() as int) =~= self.players@);
        }
        let k = random_below(active_indices.len());
        let idx = active_indices[k];
        self.players[idx].clone()
    }
}

/// Law: of two Subscribe attempts under one and the same name, whichever
/// comes first is accepted and the other is rejected as already
/// registered, whatever else the registry holds.
pub proof fn lemma_register_duplicate(
    players: Seq<PublicPlayer>,
    name: Seq<char>,
    p: PublicPlayer,
)
    requires
        vstd::utf8::is_ascii_chars(name),
        !has_name(players, name),
        p.name@ == name,
    ensures
        register_outcome(players, name) == SubscribeResult::Accepted,
        register_outcome(players.push(p), name) == SubscribeResult::Rejected(
            SubscribeError::AlreadyRegistered,
        ),
{
    assert(players.push(p)[players.len() as int].name@ == name);
    assert(has_name(players.push(p), name));
}

/// Law: a non-ASCII name is always rejected as invalid, whatever the
/// registry holds, and the registering operation then leaves the registry
/// unchanged.
pub proof fn lemma_register_non_ascii(players: Seq<PublicPlayer>, name: Seq<char>)
    requires
        !vstd::utf8::is_ascii_chars(name),
    ensures
        register_outcome(players, name) == SubscribeResult::Rejected(SubscribeError::InvalidName),
{
}

} // verus!
