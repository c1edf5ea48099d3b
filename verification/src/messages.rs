//! The wire message union and its payload types. These are the values that
//! cross a connection, one per frame; time spans travel as whole
//! milliseconds.

use vstd::prelude::*;

verus! {

/// Greeting payload: the protocol version the server speaks.
#[derive(Debug, PartialEq, Eq)]
pub struct Welcome {
    pub version: u8,
}

/// A client's request to join under a display name.
#[derive(Debug, PartialEq, Eq)]
pub struct Subscribe {
    pub name: String,
}

/// The server's answer to a Subscribe.
#[derive(Debug, PartialEq, Eq)]
pub enum SubscribeResult {
    Accepted,
    Rejected(SubscribeError),
}

/// Why a Subscribe was rejected.
#[derive(Debug, PartialEq, Eq)]
pub enum SubscribeError {
    AlreadyRegistered,
    InvalidName,
}

/// One player's public standing on the leaderboard.
#[derive(Debug, PartialEq, Eq)]
pub struct PublicPlayer {
    pub name: String,
    pub stream_id: String,
    pub score: i32,
    pub steps: u32,
    pub is_active: bool,
    pub total_used_time_ms: u64,
}

impl Clone for PublicPlayer {
    fn clone(&self) -> (r: Self)
        ensures
            r == *self,
    {
        PublicPlayer {
            name: self.name.clone(),
            stream_id: self.stream_id.clone(),
            score: self.score,
            steps: self.steps,
            is_active: self.is_active,
            total_used_time_ms: self.total_used_time_ms,
        }
    }
}

/// The ordered snapshot of every registered player.
#[derive(Debug, PartialEq, Eq)]
pub struct PublicLeaderBoard(pub Vec<PublicPlayer>);

/// A challenge dispatch: which engine, and its input.
#[derive(Debug, PartialEq, Eq)]
pub enum Challenge {
    MD5HashCash(MD5HashCashInput),
    MonstrousMaze(MonstrousMazeInput),
}

/// Input of the proof-of-work engine.
#[derive(Debug, PartialEq, Eq)]
pub struct MD5HashCashInput {
    pub complexity: u32,
    pub message: String,
}

impl Clone for MD5HashCashInput {
    fn clone(&self) -> (r: Self)
        ensures
            r == *self,
    {
        MD5HashCashInput { complexity: self.complexity, message: self.message.clone() }
    }
}

/// Input of the maze engine.
#[derive(Debug, PartialEq, Eq)]
pub struct MonstrousMazeInput {
    pub grid: String,
    pub endurance: u8,
}

impl Clone for MonstrousMazeInput {
    fn clone(&self) -> (r: Self)
        ensures
            r == *self,
    {
        MonstrousMazeInput { grid: self.grid.clone(), endurance: self.endurance }
    }
}

/// A turn holder's answer, together with the player it nominates for the
/// next turn (empty for a random choice).
#[derive(Debug, PartialEq, Eq)]
pub struct ChallengeResult {
    pub answer: ChallengeAnswer,
    pub next_target: String,
}

/// The answer to whichever challenge was dispatched.
#[derive(Debug, PartialEq, Eq)]
pub enum ChallengeAnswer {
    MD5HashCash(MD5HashCashOutput),
    MonstrousMaze(MonstrousMazeOutput),
}

/// Output of the proof-of-work engine.
#[derive(Debug, PartialEq, Eq)]
pub struct MD5HashCashOutput {
    pub seed: u64,
    pub hashcode: String,
}

impl Clone for MD5HashCashOutput {
    fn clone(&self) -> (r: Self)
        ensures
            r == *self,
    {
        MD5HashCashOutput { seed: self.seed, hashcode: self.hashcode.clone() }
    }
}

/// Output of the maze engine: the chosen path, one direction character per
/// step.
#[derive(Debug, PartialEq, Eq)]
pub struct MonstrousMazeOutput {
    pub path: String,
}

impl Clone for MonstrousMazeOutput {
    fn clone(&self) -> (r: Self)
        ensures
            r == *self,
    {
        MonstrousMazeOutput { path: self.path.clone() }
    }
}

/// The summary of one settled round, broadcast to every player.
#[derive(Debug, PartialEq, Eq)]
pub struct RoundSummary {
    pub challenge: String,
    pub chain: Vec<ReportedChallengeResult>,
}

/// One entry of a round summary: who answered, and how it went.
#[derive(Debug, PartialEq, Eq)]
pub struct ReportedChallengeResult {
    pub name: String,
    pub value: ChallengeValue,
}

/// How a dispatched challenge was resolved.
#[derive(Debug, PartialEq, Eq)]
pub enum ChallengeValue {
    Unreachable,
    Timeout,
    BadResult(BadResult),
    OkResult(OkResult),
}

/// A failed answer: the time it took and the nominated next target.
#[derive(Debug, PartialEq, Eq)]
pub struct BadResult {
    pub used_time_ms: u64,
    pub next_target: String,
}

/// A successful answer: the time it took and the nominated next target.
#[derive(Debug, PartialEq, Eq)]
pub struct OkResult {
    pub used_time_ms: u64,
    pub next_target: String,
}

/// The final broadcast: the leaderboard as the session ends.
#[derive(Debug, PartialEq, Eq)]
pub struct EndOfGame {
    pub leader_board: PublicLeaderBoard,
}

/// The message union: the only thing that crosses a connection.
#[derive(Debug, PartialEq, Eq)]
pub enum Message {
    Hello,
    Welcome(Welcome),
    Subscribe(Subscribe),
    SubscribeResult(SubscribeResult),
    StartGame,
    PublicLeaderBoard(PublicLeaderBoard),
    Challenge(Challenge),
    ChallengeResult(ChallengeResult),
    RoundSummary(RoundSummary),
    EndOfGame(EndOfGame),
}

} // verus!
