//! A Mafia game moderator: role rules, day/night resolution, contracts
//! for rogue roles, role generation scores, and the GroupMe message types
//! the bot exchanges with the chat service.
pub mod chance;
pub mod engine;
pub mod groupme;
pub mod lobby;
pub mod mafia;
pub mod rolegen;
pub mod text;
pub mod trial;
