//! The messages of the protocol.

pub mod fix_messages;
