//! Direct messages between users.

use crate::api::{refuse, refused, Refusal, RefusalView, refusal};
use crate::text::{law_whitespace_around_a_text_goes, trim, trimmed, whitespace};
use vstd::prelude::*;
use vstd::string::StringSliceAdditionalSpecFns;
use vstd::utf8::encode_utf8;

verus! {

/// Query params for DM thread pagination
pub struct DmThreadQuery {
    pub limit: Option<i64>,
    pub before_id: Option<i64>,
}

/// Request to send a direct message
pub struct SendDmRequest {
    pub message: String,
}

/// Query params for user search
pub struct UserSearchQuery {
    pub q: String,
}

/// How many messages are returned: as many as asked for, 50 where nothing is, and no more
/// than 100.
pub fn page_size(limit: Option<i64>) -> (n: i64)
    ensures
        n == match limit {
            Some(l) => if l < 100 {
                l
            } else {
                100
            },
            None => 50,
        },
{
    match limit {
        Some(l) => {
            if l < 100 {
                l
            } else {
                100
            }
        },
        None => 50,
    }
}

/// What is wrong with the text of a message, if anything: without the whitespace around
/// it, it has 1 to 2000 bytes.
pub open spec fn message_fault(message: Seq<char>) -> Option<RefusalView> {
    if trimmed(message).len() == 0 || encode_utf8(trimmed(message)).len() > 2000 {
        Some(refusal(400, "Message must be between 1 and 2000 characters"@))
    } else {
        None
    }
}

/// Takes the whitespace around a message off and checks it.
pub fn clean_message(message: &str) -> (r: Result<String, Refusal>)
    ensures
        match r {
            Ok(text) => message_fault(message@) is None && text@ == trimmed(message@),
            Err(e) => message_fault(message@) == Some(e@),
        },
{
    let text = trim(message);
    if text.as_str().is_empty() || text.as_str().as_bytes().len() > 2000 {
        Err(refuse(400, "Message must be between 1 and 2000 characters"))
    } else {
        Ok(text)
    }
}

/// Checks a direct message before the recipient is looked up, and gives the text to store.
pub fn check_direct_message(message: &str, sender_id: i64, recipient_id: i64) -> (r: Result<
    String,
    Refusal,
>)
    ensures
        match r {
            Ok(text) => message_fault(message@) is None && sender_id != recipient_id && text@
                == trimmed(message@),
            Err(e) => match message_fault(message@) {
                Some(fault) => e@ == fault,
                None => sender_id == recipient_id && e@ == refusal(
                    400,
                    "Cannot send a message to yourself"@,
                ),
            },
        },
{
    match clean_message(message) {
        Err(e) => Err(e),
        Ok(text) => {
            if sender_id == recipient_id {
                Err(refuse(400, "Cannot send a message to yourself"))
            } else {
                Ok(text)
            }
        },
    }
}

/// Checks that the recipient of a message exists.
pub fn check_recipient(found: bool) -> (r: Result<(), Refusal>)
    ensures
        if found {
            r is Ok
        } else {
            refused(r, 404, "Recipient not found"@)
        },
{
    if found {
        Ok(())
    } else {
        Err(refuse(404, "Recipient not found"))
    }
}

/// What a search looks for: the text without the whitespace around it, or nothing where
/// nothing is left.
pub fn search_term(q: &str) -> (r: Option<String>)
    ensures
        match r {
            Some(term) => term@ == trimmed(q@) && term@.len() > 0,
            None => trimmed(q@).len() == 0,
        },
{
    let term = trim(q);
    if term.as_str().is_empty() {
        None
    } else {
        Some(term)
    }
}

/// A message is accepted exactly where something is left of it without the whitespace around
/// it and that has no more than 2000 bytes; a message that is not is refused as the client's
/// fault.
pub proof fn law_messages_have_a_length(
    before: Seq<char>,
    text: Seq<char>,
    after: Seq<char>,
)
    requires
        forall|i: int| 0 <= i < before.len() ==> whitespace(#[trigger] before[i]),
        forall|i: int| 0 <= i < after.len() ==> whitespace(#[trigger] after[i]),
        text.len() > 0 ==> !whitespace(text[0]) && !whitespace(text.last()),
    ensures
        message_fault(before + text + after) is None <==> text.len() > 0 && encode_utf8(text).len()
            <= 2000,
        message_fault(before + text + after) matches Some(r) ==> r.status == 400 && r.error
            == "Message must be between 1 and 2000 characters"@,
{
    law_whitespace_around_a_text_goes(before, text, after);
}

} // verus!
