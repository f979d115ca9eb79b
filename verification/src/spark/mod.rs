//! Sparks: agent CLI sessions whose stream-json output becomes chat
//! events.
pub mod events;
pub mod parser;
