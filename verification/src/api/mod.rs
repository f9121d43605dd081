//! The rules of the HTTP service: what is accepted, what is refused, and what is answered.

use vstd::prelude::*;

pub mod admin;
pub mod auth;
pub mod chat;
pub mod cover;
pub mod direct_messages;
pub mod items;
pub mod lists;
pub mod local_chat;
pub mod metadata;
pub mod oauth;
pub mod profile;
pub mod queue;
pub mod uploads;
pub mod ws;

verus! {

/// A request that is refused: the HTTP status, and what the client is told.
#[derive(Debug, Clone)]
pub struct Refusal {
    pub status: u16,
    pub error: String,
}

/// A refusal with its text as a character sequence.
#[verifier::ext_equal]
pub struct RefusalView {
    pub status: u16,
    pub error: Seq<char>,
}

impl View for Refusal {
    type V = RefusalView;

    open spec fn view(&self) -> RefusalView {
        RefusalView { status: self.status, error: self.error@ }
    }
}

/// The refusal with a status and a text.
pub open spec fn refusal(status: u16, error: Seq<char>) -> RefusalView {
    RefusalView { status, error }
}

/// Refuses with a status and a text.
pub(crate) fn refuse(status: u16, error: &str) -> (r: Refusal)
    ensures
        r@ == refusal(status, error@),
{
    Refusal { status, error: error.to_owned() }
}

/// A result that is refused with a status and a text.
pub open spec fn refused<T>(r: Result<T, Refusal>, status: u16, error: Seq<char>) -> bool {
    r matches Err(e) && e@ == refusal(status, error)
}

} // verus!
