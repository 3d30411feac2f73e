//! Verified core of a Discord bot that rotates each registered member's
//! pronouns and keeps a ` | pronoun` suffix on their nickname.

pub mod announce;
pub mod autocomplete;
pub mod config;
pub mod error;
pub mod laws;
pub mod listing;
pub mod nickname;
pub mod order;
pub mod pronouns;
pub mod random;
pub mod registry;
pub mod text;
pub mod user_data;
