//! A verified library for a multiplayer challenge-relay server: a
//! length-prefixed message codec, two puzzle engines (a proof-of-work
//! search and an exhaustive maze pathfinder), a player registry and a
//! turn-based session state machine.

pub mod challenges;
pub mod entropy;
pub mod codec;
pub mod hash_cash;
pub mod messages;
pub mod monstrous_maze;
pub mod registry;
pub mod session;
pub mod strutil;
