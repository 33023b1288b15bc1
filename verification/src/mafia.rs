//! The timed game rules: players named by id, an eclipse when an idiot is
//! elected, and night actions resolved by priority (blocks, saves, kills,
//! investigations, milk deliveries).
pub mod action;
pub mod announce;
pub mod event;
pub mod game;
pub mod night;
pub mod phase;
pub mod players;
pub mod role;
pub mod rolegen;
pub mod state;
pub mod status;
