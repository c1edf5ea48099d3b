//! The session orchestrator: the turn and round state machine. It decides;
//! the surrounding process performs the sends and reads and hands events
//! back. A session waits for a quorum of two players, then dispatches one
//! challenge per round to a single turn holder, settles the answer into
//! the registry, and ends after the configured number of rounds.

use vstd::prelude::*;

use crate::challenges::{is_upper_hex_string, is_upper_hex_digit, Challenges};
use crate::entropy::random_below;
use crate::hash_cash::{pow_ok, MD5HashCash};
use crate::messages::{
    BadResult, Challenge, ChallengeAnswer, ChallengeResult, ChallengeValue, OkResult,
    PublicPlayer, ReportedChallengeResult, RoundSummary,
};
use crate::monstrous_maze::{maze_accepts, maze_input_wf, MonstrousMaze};
use crate::registry::{
    first_name_index, first_stream_index, has_active, has_name, has_stream, update_fits,
    updated_player, Registry,
};

verus! {

/// Where the state machine stands.
#[derive(Debug, PartialEq, Eq, Clone, Copy)]
pub enum SessionPhase {
    AwaitingPlayers,
    AwaitingAnswer,
    GameOver,
}

/// A consistency violation: the two sides disagree about the state.
#[derive(Debug, PartialEq, Eq, Clone, Copy)]
pub enum SessionError {
    /// The answer's kind is not the kind of the challenge in flight.
    AnswerKindMismatch,
    /// A proof-of-work answer whose digest string is not hexadecimal.
    MalformedAnswer,
    /// No registered player is bound to the turn holder's connection.
    UnknownPlayer,
}

/// The session: the round counter, its limit, the challenge in flight and
/// the turn holder's connection identity.
pub struct Session {
    pub round: u32,
    pub round_limit: u32,
    pub current_challenge: Option<Challenges>,
    pub turn_holder_stream: Option<String>,
    pub phase: SessionPhase,
}

/// What starting a session asks the process to do: broadcast the
/// leaderboard, and send the challenge to the holder.
#[derive(Debug)]
pub struct StartRound {
    pub leader_board: Vec<PublicPlayer>,
    pub holder: PublicPlayer,
    pub challenge: Challenge,
}

/// What settling a round asks the process to do: broadcast the summary,
/// then either dispatch the next challenge or broadcast the end of the
/// game.
#[derive(Debug)]
pub enum RoundOutcome {
    Continue { summary: RoundSummary, next_holder: PublicPlayer, next_challenge: Challenge },
    End { summary: RoundSummary, leader_board: Vec<PublicPlayer> },
}

/// The turn holder's connection identity, empty when none holds the turn.
pub open spec fn holder_stream_of(s: Session) -> Seq<char> {
    match s.turn_holder_stream {
        Some(h) => h@,
        None => Seq::empty(),
    }
}

/// Whether the answer is of the kind of the challenge in flight.
pub open spec fn answer_kind_matches(inflight: Option<Challenges>, answer: ChallengeAnswer) -> bool {
    match (inflight, answer) {
        (Some(Challenges::MD5HashCash(_)), ChallengeAnswer::MD5HashCash(_)) => true,
        (Some(Challenges::MonstrousMaze(_)), ChallengeAnswer::MonstrousMaze(_)) => true,
        _ => false,
    }
}

/// Whether a proof-of-work answer's digest string is hexadecimal; any
/// other answer passes.
pub open spec fn pow_answer_hex_ok(answer: ChallengeAnswer) -> bool {
    match answer {
        ChallengeAnswer::MD5HashCash(out) => forall|j: int|
            0 <= j < out.hashcode@.len() ==> is_upper_hex_digit(#[trigger] out.hashcode@[j]),
        ChallengeAnswer::MonstrousMaze(_) => true,
    }
}

/// Whether the answer solves the challenge in flight, by the engine's own
/// acceptance check.
pub open spec fn answer_success(inflight: Option<Challenges>, answer: ChallengeAnswer) -> bool {
    match (inflight, answer) {
        (Some(Challenges::MD5HashCash(c)), ChallengeAnswer::MD5HashCash(out)) => pow_ok(
            out.hashcode@,
            c.input.complexity as nat,
        ),
        (Some(Challenges::MonstrousMaze(m)), ChallengeAnswer::MonstrousMaze(out)) => maze_accepts(
            &m.input,
            out.path@,
        ),
        _ => false,
    }
}

/// The display name of the challenge in flight.
pub open spec fn challenge_name_of(inflight: Option<Challenges>) -> Seq<char> {
    match inflight {
        Some(Challenges::MD5HashCash(_)) => "MD5HashCash"@,
        Some(Challenges::MonstrousMaze(_)) => "MonstrousMaze"@,
        None => Seq::empty(),
    }
}

/// Whether the wire challenge carries exactly the input of the challenge
/// in flight.
pub open spec fn challenge_matches(inflight: Option<Challenges>, wire: Challenge) -> bool {
    match (inflight, wire) {
        (Some(Challenges::MD5HashCash(c)), Challenge::MD5HashCash(i)) => c.input == i,
        (Some(Challenges::MonstrousMaze(m)), Challenge::MonstrousMaze(i)) => m.input == i,
        _ => false,
    }
}

/// Whether the chosen next holder honours the nomination: the first
/// player under the nominated name when one is nominated and present,
/// some active player otherwise.
pub open spec fn next_holder_valid(
    players: Seq<PublicPlayer>,
    target: Seq<char>,
    holder: PublicPlayer,
) -> bool {
    if target.len() > 0 && has_name(players, target) {
        holder == players[first_name_index(players, target)]
    } else {
        exists|i: int|
            0 <= i < players.len() && holder == (#[trigger] players[i]) && holder.is_active
    }
}

impl Session {
    /// The machine's own consistency: the counter within its limit, a
    /// challenge and a holder exactly while an answer is awaited, and a
    /// maze in flight small enough to verify.
    pub open spec fn wf(&self) -> bool {
        &&& self.round <= self.round_limit
        &&& (self.phase is AwaitingAnswer ==> self.round < self.round_limit
            && self.current_challenge is Some && self.turn_holder_stream is Some)
        &&& (self.phase is GameOver ==> self.round == self.round_limit)
        &&& (match self.current_challenge {
            Some(Challenges::MonstrousMaze(m)) => maze_input_wf(&m.input),
            _ => true,
        })
    }

    /// A fresh session that waits for players.
    pub fn new(round_limit: u32) -> (r: Session)
        ensures
            r.wf(),
            r.round == 0,
            r.round_limit == round_limit,
            r.phase is AwaitingPlayers,
            r.current_challenge is None,
    {
        Session {
            round: 0,
            round_limit,
            current_challenge: None,
            turn_holder_stream: None,
            phase: SessionPhase::AwaitingPlayers,
        }
    }

    /// Starts the game once the registry holds a quorum of two players:
    /// takes a leaderboard snapshot for broadcast, picks a random active
    /// player as first turn holder, and builds the challenge to send.
    pub fn try_start(&mut self, registry: &Registry) -> (r: Option<StartRound>)
        requires
            old(self).wf(),
            old(self).phase is AwaitingPlayers,
            old(self).round < old(self).round_limit,
            registry.players@.len() >= 2 ==> has_active(registry.players@),
        ensures
            final (self).wf(),
            registry.players@.len() < 2 ==> r is None && *final (self) == *old(self),
            registry.players@.len() >= 2 ==> match r {
                Some(sr) => {
                    &&& sr.leader_board@ == registry.players@
                    &&& exists|i: int|
                        0 <= i < registry.players@.len() && sr.holder == (
                        #[trigger] registry.players@[i]) && sr.holder.is_active
                    &&& final (self).phase is AwaitingAnswer
                    &&& final (self).round == old(self).round
                    &&& final (self).round_limit == old(self).round_limit
                    &&& holder_stream_of(*final (self)) == sr.holder.stream_id@
                    &&& challenge_matches(final (self).current_challenge, sr.challenge)
                    &&& default_challenge_shape(sr.challenge)
                },
                None => false,
            },
    {
        if registry.players.len() < 2 {
            return None;
        }
        let leader_board = registry.snapshot();
        let empty = String::new();
        let holder = registry.pick_target(&empty);
        let pick = random_below(2);
        let chal = build_default_challenge(pick == 1);
        let wire = wire_of_challenge(&chal);
        self.current_challenge = Some(chal);
        self.turn_holder_stream = Some(holder.stream_id.clone());
        self.phase = SessionPhase::AwaitingAnswer;
        Some(StartRound { leader_board, holder, challenge: wire })
    }

    /// Settles the turn holder's answer: checks it against the challenge
    /// in flight, updates the holder's score, steps and time in the
    /// registry, builds the round summary, and either dispatches the next
    /// round or ends the game once the round counter reaches the limit.
    #[verifier::rlimit(100)]
    #[verifier::spinoff_prover]
    pub fn handle_challenge_result(
        &mut self,
        registry: &mut Registry,
        result: &ChallengeResult,
        elapsed_ms: u64,
    ) -> (r: Result<RoundOutcome, SessionError>)
        requires
            old(self).wf(),
            old(registry).wf(),
            old(self).phase is AwaitingAnswer,
            update_fits(old(registry).players@, holder_stream_of(*old(self)), elapsed_ms),
            (result.next_target@.len() == 0 || !has_name(
                old(registry).players@,
                result.next_target@,
            )) ==> has_active(old(registry).players@),
        ensures
            final (self).wf(),
            final (registry).wf(),
            match r {
                Err(e) => {
                    &&& *final (self) == *old(self)
                    &&& final (registry).players@ == old(registry).players@
                    &&& (e == SessionError::AnswerKindMismatch <==> !answer_kind_matches(
                        old(self).current_challenge,
                        result.answer,
                    ))
                    &&& (e == SessionError::MalformedAnswer ==> answer_kind_matches(
                        old(self).current_challenge,
                        result.answer,
                    ) && !pow_answer_hex_ok(result.answer))
                    &&& (e == SessionError::UnknownPlayer ==> answer_kind_matches(
                        old(self).current_challenge,
                        result.answer,
                    ) && pow_answer_hex_ok(result.answer) && !has_stream(
                        old(registry).players@,
                        holder_stream_of(*old(self)),
                    ))
                },
                Ok(outcome) => {
                    let success = answer_success(old(self).current_challenge, result.answer);
                    let k = first_stream_index(
                        old(registry).players@,
                        holder_stream_of(*old(self)),
                    );
                    &&& answer_kind_matches(old(self).current_challenge, result.answer)
                    &&& pow_answer_hex_ok(result.answer)
                    &&& has_stream(old(registry).players@, holder_stream_of(*old(self)))
                    &&& final (registry).players@ == old(registry).players@.update(
                        k,
                        updated_player(old(registry).players@[k], success, elapsed_ms),
                    )
                    &&& final (self).round == old(self).round + 1
                    &&& final (self).round_limit == old(self).round_limit
                    &&& ((outcome matches RoundOutcome::End { .. }) <==> final (self).round == old(
                        self,
                    ).round_limit)
                    &&& match outcome {
                        RoundOutcome::End { summary, leader_board } => {
                            &&& final (self).phase is GameOver
                            &&& leader_board@ == final (registry).players@
                            &&& summary_describes(
                                summary,
                                old(self).current_challenge,
                                old(registry).players@[k].name@,
                                success,
                                elapsed_ms,
                            )
                        },
                        RoundOutcome::Continue { summary, next_holder, next_challenge } => {
                            &&& final (self).phase is AwaitingAnswer
                            &&& holder_stream_of(*final (self)) == next_holder.stream_id@
                            &&& challenge_matches(final (self).current_challenge, next_challenge)
                            &&& default_challenge_shape(next_challenge)
                            &&& next_holder_valid(
                                final (registry).players@,
                                result.next_target@,
                                next_holder,
                            )
                            &&& summary_describes(
                                summary,
                                old(self).current_challenge,
                                old(registry).players@[k].name@,
                                success,
                                elapsed_ms,
                            )
                        },
                    }
                },
            },
    {
        let ghost players0 = registry.players@;
        let success: bool;
        let is_pow: bool;
        match (&self.current_challenge, &result.answer) {
            (Some(Challenges::MD5HashCash(c)), ChallengeAnswer::MD5HashCash(out)) => {
                if !is_upper_hex_string(&out.hashcode) {
                    return Err(SessionError::MalformedAnswer);
                }
                success = c.verify(out);
                is_pow = true;
            },
            (Some(Challenges::MonstrousMaze(m)), ChallengeAnswer::MonstrousMaze(out)) => {
                success = m.verify(out);
                is_pow = false;
            },
            _ => {
                return Err(SessionError::AnswerKindMismatch);
            },
        }
        let holder_stream: String;
        match &self.turn_holder_stream {
            Some(h) => {
                holder_stream = h.clone();
            },
            None => {
                proof {
                    assert(false);
                }
                return Err(SessionError::UnknownPlayer);
            },
        }
        let updated = registry.update_after_challenge(&holder_stream, success, elapsed_ms);
        let current_player: PublicPlayer;
        match updated {
            Some(p) => {
                current_player = p;
            },
            None => {
                return Err(SessionError::UnknownPlayer);
            },
        }
        let summary = build_summary(is_pow, &current_player.name, success, elapsed_ms);
        proof {
            assert(challenge_name_of(old(self).current_challenge) == (if is_pow {
                "MD5HashCash"@
            } else {
                "MonstrousMaze"@
            }));
        }
        proof {
            crate::registry::lemma_first_stream_index(players0, holder_stream@);
            let k = first_stream_index(players0, holder_stream@);
            assert(registry.players@ == players0.update(
                k,
                updated_player(players0[k], success, elapsed_ms),
            ));
            assert forall|i: int|
                0 <= i < players0.len() implies (#[trigger] registry.players@[i]).name@
                == players0[i].name@ && registry.players@[i].is_active
                == players0[i].is_active by {
                if i != k {
                    assert(registry.players@[i] == players0[i]);
                }
            }
            lemma_presence_preserved(players0, registry.players@, result.next_target@);
        }
        self.round = self.round + 1;
        if self.round == self.round_limit {
            self.phase = SessionPhase::GameOver;
            self.current_challenge = None;
            self.turn_holder_stream = None;
            let leader_board = registry.snapshot();
            Ok(RoundOutcome::End { summary, leader_board })
        } else {
            let next_holder = registry.pick_target(&result.next_target);
            let pick = random_below(2);
            let chal = build_default_challenge(pick == 1);
            let wire = wire_of_challenge(&chal);
            self.current_challenge = Some(chal);
            self.turn_holder_stream = Some(next_holder.stream_id.clone());
            self.phase = SessionPhase::AwaitingAnswer;
            Ok(RoundOutcome::Continue { summary, next_holder, next_challenge: wire })
        }
    }
}

/// Whether a round summary reports exactly this round: the engine's name,
/// a single chain entry under the holder's name, and an outcome value
/// carrying the elapsed time and that name.
pub open spec fn summary_describes(
    summary: RoundSummary,
    inflight: Option<Challenges>,
    holder_name: Seq<char>,
    success: bool,
    elapsed_ms: u64,
) -> bool {
    &&& summary.challenge@ == challenge_name_of(inflight)
    &&& summary.chain@.len() == 1
    &&& summary.chain@[0].name@ == holder_name
    &&& match summary.chain@[0].value {
        ChallengeValue::OkResult(ok) => success && ok.used_time_ms == elapsed_ms
            && ok.next_target@ == holder_name,
        ChallengeValue::BadResult(bad) => !success && bad.used_time_ms == elapsed_ms
            && bad.next_target@ == holder_name,
        _ => false,
    }
}

/// Whether the wire challenge is one of the two default dispatches: the
/// proof of work at complexity 9 over "hello", or the one-corridor maze
/// at endurance 10.
pub open spec fn default_challenge_shape(wire: Challenge) -> bool {
    match wire {
        Challenge::MD5HashCash(i) => i.complexity == 9 && i.message@ == "hello"@,
        Challenge::MonstrousMaze(i) => i.grid@ == "|I   X|"@ && i.endurance == 10,
    }
}

/// Builds the round summary: the engine's name, and one chain entry that
/// reports the holder's outcome, the elapsed time and the holder's name.
fn build_summary(is_pow: bool, holder_name: &String, success: bool, elapsed_ms: u64) -> (s:
    RoundSummary)
    ensures
        s.challenge@ == (if is_pow {
            "MD5HashCash"@
        } else {
            "MonstrousMaze"@
        }),
        s.chain@.len() == 1,
        s.chain@[0].name@ == holder_name@,
        (match s.chain@[0].value {
            ChallengeValue::OkResult(ok) => success && ok.used_time_ms == elapsed_ms
                && ok.next_target@ == holder_name@,
            ChallengeValue::BadResult(bad) => !success && bad.used_time_ms == elapsed_ms
                && bad.next_target@ == holder_name@,
            _ => false,
        }),
{
    let engine_name = if is_pow {
        MD5HashCash::name()
    } else {
        MonstrousMaze::name()
    };
    let value = if success {
        ChallengeValue::OkResult(
            OkResult { used_time_ms: elapsed_ms, next_target: holder_name.clone() },
        )
    } else {
        ChallengeValue::BadResult(
            BadResult { used_time_ms: elapsed_ms, next_target: holder_name.clone() },
        )
    };
    let mut chain: Vec<ReportedChallengeResult> = Vec::new();
    chain.push(ReportedChallengeResult { name: holder_name.clone(), value });
    RoundSummary { challenge: engine_name, chain }
}

/// Builds the default challenge of the chosen kind.
fn build_default_challenge(pick_maze: bool) -> (r: Challenges)
    ensures
        !pick_maze ==> (r matches Challenges::MD5HashCash(c) && c.input.complexity == 9
            && c.input.message@ == "hello"@),
        pick_maze ==> (r matches Challenges::MonstrousMaze(m) && m.input.grid@ == "|I   X|"@
            && m.input.endurance == 10 && maze_input_wf(&m.input)),
{
    if !pick_maze {
        let challenge_input = crate::messages::MD5HashCashInput {
            complexity: 9,
            message: String::from_str("hello"),
        };
        Challenges::MD5HashCash(MD5HashCash::new(challenge_input))
    } else {
        proof {
            reveal_strlit("|I   X|");
        }
        let challenge_input = crate::messages::MonstrousMazeInput {
            grid: String::from_str("|I   X|"),
            endurance: 10,
        };
        Challenges::MonstrousMaze(MonstrousMaze::new(challenge_input))
    }
}

/// The wire payload of the challenge in flight: the same input, copied.
fn wire_of_challenge(chal: &Challenges) -> (r: Challenge)
    ensures
        challenge_matches(Some(*chal), r),
        (match chal {
            Challenges::MD5HashCash(c) => (r matches Challenge::MD5HashCash(i) && i == c.input),
            Challenges::MonstrousMaze(m) => (r matches Challenge::MonstrousMaze(i) && i
                == m.input),
        }),
{
    match chal {
        Challenges::MD5HashCash(c) => Challenge::MD5HashCash(c.input.clone()),
        Challenges::MonstrousMaze(m) => Challenge::MonstrousMaze(m.input.clone()),
    }
}

/// The client's nomination policy: the name of a uniformly random player
/// from the leaderboard it last received.
pub fn next_target(public_leader_board: &Vec<PublicPlayer>) -> (r: String)
    requires
        public_leader_board@.len() > 0,
    ensures
        exists|i: int|
            0 <= i < public_leader_board@.len() && r@ == (
            #[trigger] public_leader_board@[i]).name@,
{
    let k = random_below(public_leader_board.len());
    public_leader_board[k].name.clone()
}

/// Updating one player's counters moves no name and clears no active
/// flag: whoever was present or active before is present or active after.
proof fn lemma_presence_preserved(before: Seq<PublicPlayer>, after: Seq<PublicPlayer>, target: Seq<char>)
    requires
        after.len() == before.len(),
        forall|i: int|
            0 <= i < before.len() ==> (#[trigger] after[i]).name@ == before[i].name@
                && after[i].is_active == before[i].is_active,
    ensures
        has_name(after, target) == has_name(before, target),
        has_active(after) == has_active(before),
{
    if has_name(before, target) {
        let i = choose|i: int| 0 <= i < before.len() && (#[trigger] before[i]).name@ == target;
        assert(after[i].name@ == target);
    }
    if has_name(after, target) {
        let i = choose|i: int| 0 <= i < after.len() && (#[trigger] after[i]).name@ == target;
        assert(before[i].name@ == target);
    }
    if has_active(before) {
        let i = choose|i: int| 0 <= i < before.len() && (#[trigger] before[i]).is_active;
        assert(after[i].is_active);
    }
    if has_active(after) {
        let i = choose|i: int| 0 <= i < after.len() && (#[trigger] after[i]).is_active;
        assert(before[i].is_active);
    }
}

} // verus!
