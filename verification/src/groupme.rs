//! The GroupMe side of the bot: ids, members and groups, the push
//! messages of the realtime channel, and the payloads sent to the API.
pub mod api;
pub mod group;
pub mod ids;
pub mod json;
pub mod push;
pub mod subscriber;
