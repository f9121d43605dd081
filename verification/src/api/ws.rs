//! Progress events for connected browsers.

use crate::text::same_text;
use vstd::prelude::*;

verus! {

/// Query params for WebSocket connection
pub struct WsQuery {
    pub token: Option<String>,
}

/// Whether an item with a status is in progress: only those are sent to a browser that
/// connects.
pub fn is_active(status: &str) -> (r: bool)
    ensures
        r == (status@ == "pending"@ || status@ == "downloading"@ || status@ == "queued"@),
{
    same_text(status, "pending") || same_text(status, "downloading") || same_text(status, "queued")
}

} // verus!
