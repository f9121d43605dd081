//! Local chat (shoutbox). Its messages follow the rules of direct messages; its searches
//! too.

use vstd::prelude::*;

verus! {

/// Query params for local chat messages
pub struct LocalChatQuery {
    /// Max messages to return (default 50)
    pub limit: Option<i64>,
    /// Return messages before this ID (cursor pagination)
    pub before_id: Option<i64>,
}

/// Request to send a local chat message
pub struct SendLocalChatRequest {
    pub message: String,
}

/// Query params for share search
pub struct ShareSearchQuery {
    pub q: String,
}

} // verus!
