//! The contract-aware game engine: players are held by index, phases
//! alternate between day (votes) and night (targets and the mafia scheme).
pub mod comm;
pub mod game;
pub mod phase;
pub mod player;
