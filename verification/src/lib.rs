//! A verified conversation engine for multi-agent chat: a shared message
//! store referenced by per-agent histories, a dispatch protocol that fans a
//! user request out to every assistant and linearizes their replies by
//! completion order, and a flat persistence schema that round-trips the
//! conversation graph.

pub mod agents;
pub mod auth;
pub mod chat;
pub mod datetime;
pub mod customization;
pub mod dispatch;
pub mod idstr;
pub mod settings;
pub mod storage;
pub mod msg;

use vstd::prelude::*;

verus! {

/// Role of a chat message, as sent to a text-generation service.
#[derive(Clone, Copy, Debug, PartialEq, Eq, Structural)]
pub enum MsgRole {
    System,
    User,
    Assistant,
}

} // verus!
