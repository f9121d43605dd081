//! Chat API endpoints for Soulseek private messaging.

use crate::api::{refuse, refused, Refusal};
use crate::protocol::router::{chat_data, ChatMessage, ChatView};
use crate::text::{eq_ignoring_case, opt_str, same_ignoring_case};
use crate::wire::{outcome, u32_value, Halt};
use vstd::prelude::*;

verus! {

/// Query params for filtering chat messages
pub struct ChatQuery {
    /// Filter to a specific username conversation
    pub username: Option<String>,
}

/// Response for chat message list
pub struct ChatMessageResponse {
    pub username: String,
    pub message: String,
    pub timestamp: u32,
    pub incoming: bool,
    pub is_new: bool,
}

/// A response with its texts as character sequences.
#[verifier::ext_equal]
pub struct ChatResponseView {
    pub username: Seq<char>,
    pub message: Seq<char>,
    pub timestamp: u32,
    pub incoming: bool,
    pub is_new: bool,
}

impl View for ChatMessageResponse {
    type V = ChatResponseView;

    open spec fn view(&self) -> ChatResponseView {
        ChatResponseView {
            username: self.username@,
            message: self.message@,
            timestamp: self.timestamp,
            incoming: self.incoming,
            is_new: self.is_new,
        }
    }
}

/// Request to send a private message
pub struct SendMessageRequest {
    pub username: String,
    pub message: String,
}

/// Whether a message belongs to a conversation: to any, where none is asked for.
pub open spec fn in_conversation(m: ChatMessage, username: Option<Seq<char>>) -> bool {
    match username {
        Some(name) => same_ignoring_case(m.username@, name),
        None => true,
    }
}

/// A message as it is shown.
pub open spec fn shown(m: ChatMessage) -> ChatResponseView {
    ChatResponseView {
        username: m.username@,
        message: m.message@,
        timestamp: m.timestamp,
        incoming: m.incoming,
        is_new: m.is_new,
    }
}

/// The messages of a conversation as they are shown, in their order.
pub open spec fn conversation(history: Seq<ChatMessage>, username: Option<Seq<char>>) -> Seq<
    ChatResponseView,
>
    decreases history.len(),
{
    if history.len() == 0 {
        Seq::empty()
    } else if in_conversation(history.last(), username) {
        conversation(history.drop_last(), username).push(shown(history.last()))
    } else {
        conversation(history.drop_last(), username)
    }
}

/// The views of a sequence of responses.
pub open spec fn response_views(v: Seq<ChatMessageResponse>) -> Seq<ChatResponseView> {
    v.map_values(|r: ChatMessageResponse| r@)
}

/// A response says of a message its name, text and time, its direction, and whether it is
/// new.
pub open spec fn shows(r: ChatMessageResponse, m: ChatMessage) -> bool {
    &&& r.username@ == m.username@
    &&& r.message@ == m.message@
    &&& r.timestamp == m.timestamp
    &&& r.incoming == m.incoming
    &&& r.is_new == m.is_new
}

/// A response shows a message of the history that belongs to the conversation.
pub open spec fn shows_one_of(
    r: ChatMessageResponse,
    history: Seq<ChatMessage>,
    username: Option<Seq<char>>,
) -> bool {
    exists|j: int|
        0 <= j < history.len() && shows(r, #[trigger] history[j]) && (username matches Some(name)
            ==> same_ignoring_case(history[j].username@, name))
}

/// Picks the messages of a conversation from the history.
pub fn select_messages(history: &Vec<ChatMessage>, username: Option<&str>) -> (r: Vec<
    ChatMessageResponse,
>)
    ensures
        response_views(r@) == conversation(history@, opt_str(username)),
        forall|i: int|
            #![trigger r@[i]]
            0 <= i < r@.len() ==> shows_one_of(r@[i], history@, opt_str(username)),
        username is None ==> r@.len() == history@.len() && forall|i: int|
            #![trigger r@[i]]
            0 <= i < r@.len() ==> shows(r@[i], history@[i]),
{
    let mut r: Vec<ChatMessageResponse> = Vec::new();
    let mut i: usize = 0;
    assert(response_views(r@) =~= Seq::<ChatResponseView>::empty());
    while i < history.len()
        invariant
            i <= history.len(),
            response_views(r@) == conversation(history@.take(i as int), opt_str(username)),
        decreases history.len() - i,
    {
        let m = &history[i];
        assert(history@.take(i + 1).drop_last() =~= history@.take(i as int));
        assert(history@.take(i + 1).last() == *m);
        let wanted: bool = match username {
            Some(name) => eq_ignoring_case(m.username.as_str(), name),
            None => true,
        };
        if wanted {
            let ghost before = r@;
            let response = ChatMessageResponse {
                username: m.username.clone(),
                message: m.message.clone(),
                timestamp: m.timestamp,
                incoming: m.incoming,
                is_new: m.is_new,
            };
            r.push(response);
            assert(response_views(r@) =~= response_views(before).push(response@));
        }
        i = i + 1;
    }
    assert(history@.take(i as int) =~= history@);
    proof {
        let name = opt_str(username);
        let list = conversation(history@, name);
        assert(list.len() == r@.len());
        assert forall|k: int| #![trigger r@[k]] 0 <= k < r@.len() implies shows_one_of(
            r@[k],
            history@,
            name,
        ) by {
            let j = law_shown_messages_are_of_the_history(history@, name, k);
            assert(list[k] == r@[k]@);
            assert(shows(r@[k], history@[j]));
        }
        if username is None {
            law_whole_history_is_shown(history@);
            assert forall|k: int| #![trigger r@[k]] 0 <= k < r@.len() implies shows(
                r@[k],
                history@[k],
            ) by {
                assert(list[k] == r@[k]@);
            }
        }
    }
    r
}

/// Checks a private message that is to be sent: it needs a recipient and a text.
pub fn check_private_message(request: &SendMessageRequest) -> (r: Result<(), Refusal>)
    ensures
        if request.username@.len() == 0 || request.message@.len() == 0 {
            refused(r, 400, "Username and message are required"@)
        } else {
            r is Ok
        },
{
    if request.username.as_str().is_empty() || request.message.as_str().is_empty() {
        Err(refuse(400, "Username and message are required"))
    } else {
        Ok(())
    }
}

// ---------------------------------------------------------------------------
// Laws
// ---------------------------------------------------------------------------
/// A message is shown where no conversation is asked for, or where the other user has the
/// name that is asked for, in whatever case of letters. What is shown of it is its own name,
/// text and time, whether it came in or went out, and whether it is new.
pub proof fn law_message_is_shown_as_it_is(m: ChatMessage, username: Option<Seq<char>>)
    ensures
        ({
            let list = conversation(seq![m], username);
            if username matches Some(name) && !same_ignoring_case(m.username@, name) {
                list.len() == 0
            } else {
                &&& list.len() == 1
                &&& list[0].username == m.username@
                &&& list[0].message == m.message@
                &&& list[0].timestamp == m.timestamp
                &&& list[0].incoming == m.incoming
                &&& list[0].is_new == m.is_new
            }
        }),
{
    assert(seq![m].drop_last() =~= Seq::<ChatMessage>::empty());
    assert(conversation(Seq::<ChatMessage>::empty(), username).len() == 0);
    assert(seq![m].last() == m);
}

/// The history is shown message by message, in its order: what is shown of two stretches of
/// it is what is shown of the first and then what is shown of the second.
pub proof fn law_history_is_shown_in_order(
    earlier: Seq<ChatMessage>,
    later: Seq<ChatMessage>,
    username: Option<Seq<char>>,
)
    ensures
        conversation(earlier + later, username) == conversation(earlier, username) + conversation(
            later,
            username,
        ),
    decreases later.len(),
{
    if later.len() == 0 {
        assert(earlier + later =~= earlier);
        assert(conversation(earlier, username) + conversation(later, username) =~= conversation(
            earlier,
            username,
        ));
    } else {
        law_history_is_shown_in_order(earlier, later.drop_last(), username);
        assert((earlier + later).drop_last() =~= earlier + later.drop_last());
        assert((earlier + later).last() == later.last());
        assert(conversation(earlier + later, username) =~= conversation(earlier, username)
            + conversation(later, username));
    }
}

/// Without a conversation to pick, every message of the history is shown, each in its place
/// and as it is.
pub proof fn law_whole_history_is_shown(history: Seq<ChatMessage>)
    ensures
        conversation(history, None).len() == history.len(),
        forall|i: int|
            0 <= i < history.len() ==> {
                let r = #[trigger] conversation(history, None)[i];
                &&& r.username == history[i].username@
                &&& r.message == history[i].message@
                &&& r.timestamp == history[i].timestamp
                &&& r.incoming == history[i].incoming
                &&& r.is_new == history[i].is_new
            },
    decreases history.len(),
{
    if history.len() > 0 {
        law_whole_history_is_shown(history.drop_last());
        let before = conversation(history.drop_last(), None);
        assert forall|i: int| 0 <= i < history.len() implies {
            let r = #[trigger] conversation(history, None)[i];
            &&& r.username == history[i].username@
            &&& r.message == history[i].message@
            &&& r.timestamp == history[i].timestamp
            &&& r.incoming == history[i].incoming
            &&& r.is_new == history[i].is_new
        } by {
            if i < history.len() - 1 {
                assert(conversation(history, None)[i] == before[i]);
                assert(history.drop_last()[i] == history[i]);
            }
        }
    }
}

/// Each message that is shown stands for one of the history that belongs to the
/// conversation, and is that message in every respect. Its place in the history is `j`.
pub proof fn law_shown_messages_are_of_the_history(
    history: Seq<ChatMessage>,
    username: Option<Seq<char>>,
    i: int,
) -> (j: int)
    requires
        0 <= i < conversation(history, username).len(),
    ensures
        0 <= j < history.len(),
        username matches Some(name) ==> same_ignoring_case(history[j].username@, name),
        conversation(history, username)[i].username == history[j].username@,
        conversation(history, username)[i].message == history[j].message@,
        conversation(history, username)[i].timestamp == history[j].timestamp,
        conversation(history, username)[i].incoming == history[j].incoming,
        conversation(history, username)[i].is_new == history[j].is_new,
    decreases history.len(),
{
    let before = conversation(history.drop_last(), username);
    if i < before.len() {
        law_shown_messages_are_of_the_history(history.drop_last(), username, i)
    } else {
        history.len() - 1
    }
}

/// A message that we send is shown as one that went out, under the name of the recipient,
/// and one that the server handed us as one that came in, under the name of the sender with
/// the time that the server gave it.
pub proof fn law_direction_is_shown(
    sent: ChatMessage,
    received: ChatMessage,
    data: Seq<u8>,
    username: Seq<char>,
    message: Seq<char>,
    now: u32,
)
    requires
        sent@ == (ChatView {
            message_id: None,
            timestamp: now,
            username,
            message,
            incoming: false,
            is_new: true,
        }),
        outcome(chat_data(data)) == Ok::<ChatView, Halt>(received@),
    ensures
        ({
            let list = conversation(seq![sent, received], None);
            &&& list.len() == 2
            &&& !list[0].incoming
            &&& list[0].username == username
            &&& list[0].message == message
            &&& list[0].timestamp == now
            &&& list[1].incoming
            &&& list[1].timestamp == u32_value(data.skip(4))
        }),
{
    law_whole_history_is_shown(seq![sent, received]);
}

} // verus!
