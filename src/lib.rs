//! Redaction of player identities in battle-log records.

pub mod identifier;
pub mod text;
pub mod registry;
pub mod input_log;
pub mod battle_log;
pub mod json;
pub mod anonymizer;
