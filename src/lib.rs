//! The logic of a community bot for a role-playing game: the decoder of
//! build template codes, the localized tables that the bot answers from, the
//! per-guild settings and the calendar arithmetic of the rotating events.
pub mod config;
pub mod csv;
pub mod enums;
pub mod messages;
pub mod skill;
pub mod store;
pub mod time;
