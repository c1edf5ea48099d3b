//! The registry's invariants and the session state machine, driven as the
//! server drives them: subscribe, start, answer, settle, end of game.

use challenge_relay::hash_cash::MD5HashCash;
use challenge_relay::messages::{
    Challenge, ChallengeAnswer, ChallengeResult, ChallengeValue, MD5HashCashOutput,
    MonstrousMazeOutput, SubscribeError, SubscribeResult,
};
use challenge_relay::monstrous_maze::MonstrousMaze;
use challenge_relay::registry::Registry;
use challenge_relay::session::{RoundOutcome, Session, SessionError};

fn solve_wire(challenge: &Challenge) -> ChallengeAnswer {
    match challenge {
        Challenge::MD5HashCash(input) => {
            let engine = MD5HashCash::new(input.clone());
            ChallengeAnswer::MD5HashCash(engine.solve())
        }
        Challenge::MonstrousMaze(input) => {
            let engine = MonstrousMaze::new(input.clone());
            ChallengeAnswer::MonstrousMaze(engine.solve())
        }
    }
}

fn wrong_answer_of_right_kind(challenge: &Challenge) -> ChallengeAnswer {
    match challenge {
        Challenge::MD5HashCash(_) => ChallengeAnswer::MD5HashCash(MD5HashCashOutput {
            seed: 1,
            hashcode: "FFFFFFFFFFFFFFFFFFFFFFFFFFFFFFFF".to_string(),
        }),
        Challenge::MonstrousMaze(_) => ChallengeAnswer::MonstrousMaze(MonstrousMazeOutput {
            path: String::new(),
        }),
    }
}

fn answer_of_wrong_kind(challenge: &Challenge) -> ChallengeAnswer {
    match challenge {
        Challenge::MD5HashCash(_) => ChallengeAnswer::MonstrousMaze(MonstrousMazeOutput {
            path: String::new(),
        }),
        Challenge::MonstrousMaze(_) => ChallengeAnswer::MD5HashCash(MD5HashCashOutput {
            seed: 1,
            hashcode: String::new(),
        }),
    }
}

#[test]
fn duplicate_names_yield_one_accept_and_one_already_registered() {
    let mut registry = Registry::new();
    let first = registry.register("carol".to_string(), "a:1".to_string());
    let second = registry.register("carol".to_string(), "a:2".to_string());
    assert_eq!(first, SubscribeResult::Accepted);
    assert_eq!(
        second,
        SubscribeResult::Rejected(SubscribeError::AlreadyRegistered)
    );
    assert_eq!(registry.players.len(), 1);
}

#[test]
fn non_ascii_name_is_invalid_and_never_inserted() {
    let mut registry = Registry::new();
    let r = registry.register("héros".to_string(), "a:1".to_string());
    assert_eq!(r, SubscribeResult::Rejected(SubscribeError::InvalidName));
    assert_eq!(registry.players.len(), 0);
}

#[test]
fn fresh_player_has_a_clean_slate_and_snapshot_keeps_order() {
    let mut registry = Registry::new();
    registry.register("carol".to_string(), "a:1".to_string());
    registry.register("dave".to_string(), "a:2".to_string());
    let snap = registry.snapshot();
    assert_eq!(snap.len(), 2);
    assert_eq!(snap[0].name, "carol");
    assert_eq!(snap[1].name, "dave");
    assert_eq!(snap[0].score, 0);
    assert_eq!(snap[0].steps, 0);
    assert!(snap[0].is_active);
    assert_eq!(snap[0].total_used_time_ms, 0);
}

#[test]
fn update_after_challenge_adjusts_the_counters() {
    let mut registry = Registry::new();
    registry.register("carol".to_string(), "a:1".to_string());
    let id = "a:1".to_string();
    let lost = registry
        .update_after_challenge(&id, false, 250)
        .expect("the player is registered");
    assert_eq!(lost.score, -1);
    assert_eq!(lost.steps, 1);
    assert_eq!(lost.total_used_time_ms, 250);
    let won = registry
        .update_after_challenge(&id, true, 100)
        .expect("the player is registered");
    assert_eq!(won.score, -1);
    assert_eq!(won.steps, 2);
    assert_eq!(won.total_used_time_ms, 350);
    assert_eq!(registry.players[0].score, -1);
    let unknown = "b:9".to_string();
    assert!(registry.update_after_challenge(&unknown, true, 1).is_none());
}

#[test]
fn pick_target_honours_a_nominated_name() {
    let mut registry = Registry::new();
    registry.register("carol".to_string(), "a:1".to_string());
    registry.register("dave".to_string(), "a:2".to_string());
    let name = "dave".to_string();
    let picked = registry.pick_target(&name);
    assert_eq!(picked.name, "dave");
}

#[test]
fn pick_target_falls_back_to_an_active_player() {
    let mut registry = Registry::new();
    registry.register("carol".to_string(), "a:1".to_string());
    let empty = String::new();
    let picked = registry.pick_target(&empty);
    assert_eq!(picked.name, "carol");
    let absent = "nobody".to_string();
    let picked2 = registry.pick_target(&absent);
    assert_eq!(picked2.name, "carol");
}

#[test]
fn session_waits_for_a_quorum() {
    let mut registry = Registry::new();
    registry.register("carol".to_string(), "a:1".to_string());
    let mut session = Session::new(3);
    assert!(session.try_start(&registry).is_none());
}

#[test]
fn session_ends_after_the_configured_number_of_rounds() {
    let mut registry = Registry::new();
    assert_eq!(
        registry.register("alice".to_string(), "c:1".to_string()),
        SubscribeResult::Accepted
    );
    assert_eq!(
        registry.register("bob".to_string(), "c:2".to_string()),
        SubscribeResult::Accepted
    );
    let mut session = Session::new(2);
    let start = session.try_start(&registry).expect("the quorum is reached");
    assert_eq!(start.leader_board.len(), 2);
    let mut challenge = start.challenge;
    let mut rounds = 0;
    loop {
        let result = ChallengeResult {
            answer: solve_wire(&challenge),
            next_target: String::new(),
        };
        match session
            .handle_challenge_result(&mut registry, &result, 5)
            .expect("a consistent answer settles")
        {
            RoundOutcome::Continue {
                summary,
                next_holder: _,
                next_challenge,
            } => {
                rounds += 1;
                assert_eq!(summary.chain.len(), 1);
                assert!(matches!(summary.chain[0].value, ChallengeValue::OkResult(_)));
                challenge = next_challenge;
            }
            RoundOutcome::End {
                summary,
                leader_board,
            } => {
                rounds += 1;
                assert_eq!(summary.chain.len(), 1);
                // one leaderboard entry per successful Subscribe
                assert_eq!(leader_board.len(), 2);
                break;
            }
        }
    }
    assert_eq!(rounds, 2);
    // a correct answer leaves the score untouched
    assert_eq!(registry.players[0].score, 0);
    assert_eq!(registry.players[1].score, 0);
}

#[test]
fn a_failed_answer_costs_one_point() {
    let mut registry = Registry::new();
    registry.register("alice".to_string(), "d:1".to_string());
    registry.register("bob".to_string(), "d:2".to_string());
    let mut session = Session::new(1);
    let start = session.try_start(&registry).expect("the quorum is reached");
    let holder_name = start.holder.name.clone();
    let result = ChallengeResult {
        answer: wrong_answer_of_right_kind(&start.challenge),
        next_target: String::new(),
    };
    let outcome = session
        .handle_challenge_result(&mut registry, &result, 7)
        .expect("a consistent answer settles");
    match outcome {
        RoundOutcome::End {
            summary,
            leader_board,
        } => {
            assert!(matches!(summary.chain[0].value, ChallengeValue::BadResult(_)));
            let holder = leader_board
                .iter()
                .find(|p| p.name == holder_name)
                .expect("the holder is on the leaderboard");
            assert_eq!(holder.score, -1);
            assert_eq!(holder.steps, 1);
            assert_eq!(holder.total_used_time_ms, 7);
        }
        RoundOutcome::Continue { .. } => panic!("one round was configured"),
    }
}

#[test]
fn an_answer_of_the_wrong_kind_is_a_consistency_violation() {
    let mut registry = Registry::new();
    registry.register("alice".to_string(), "e:1".to_string());
    registry.register("bob".to_string(), "e:2".to_string());
    let mut session = Session::new(1);
    let start = session.try_start(&registry).expect("the quorum is reached");
    let result = ChallengeResult {
        answer: answer_of_wrong_kind(&start.challenge),
        next_target: String::new(),
    };
    let err = session
        .handle_challenge_result(&mut registry, &result, 1)
        .expect_err("the kinds disagree");
    assert_eq!(err, SessionError::AnswerKindMismatch);
    // nothing was settled
    assert_eq!(registry.players[0].score, 0);
    assert_eq!(registry.players[0].steps, 0);
}

#[test]
fn a_hash_answer_with_a_non_hex_digest_is_malformed() {
    // the challenge kind is drawn at random; retry until the proof of
    // work comes up
    for _ in 0..100 {
        let mut registry = Registry::new();
        registry.register("alice".to_string(), "f:1".to_string());
        registry.register("bob".to_string(), "f:2".to_string());
        let mut session = Session::new(1);
        let start = session.try_start(&registry).expect("the quorum is reached");
        if let Challenge::MD5HashCash(_) = start.challenge {
            let result = ChallengeResult {
                answer: ChallengeAnswer::MD5HashCash(MD5HashCashOutput {
                    seed: 1,
                    hashcode: "not hex".to_string(),
                }),
                next_target: String::new(),
            };
            let err = session
                .handle_challenge_result(&mut registry, &result, 1)
                .expect_err("the digest is not hexadecimal");
            assert_eq!(err, SessionError::MalformedAnswer);
            return;
        }
    }
    panic!("the random choice never picked the proof of work");
}
