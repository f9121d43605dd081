//! Conversations with the server and with a peer: what is sent, and what the answer means.

use crate::protocol::messages::{PeerMessage, PeerMessageView, ServerMessage, ServerMessageView};
use vstd::prelude::*;

verus! {

/// Why a conversation failed.
#[derive(Debug, Clone)]
pub enum ConnectionError {
    /// The connection was closed.
    Closed,
    /// Another message came than the answer.
    Unexpected,
    /// The server refused the login, and said why.
    LoginFailed(String),
    /// The peer denied the transfer.
    TransferDenied,
}

/// The same with texts as character sequences.
#[verifier::ext_equal]
pub enum ConnectionErrorView {
    Closed,
    Unexpected,
    LoginFailed(Seq<char>),
    TransferDenied,
}

impl View for ConnectionError {
    type V = ConnectionErrorView;

    open spec fn view(&self) -> ConnectionErrorView {
        match *self {
            ConnectionError::Closed => ConnectionErrorView::Closed,
            ConnectionError::Unexpected => ConnectionErrorView::Unexpected,
            ConnectionError::LoginFailed(reason) => ConnectionErrorView::LoginFailed(reason@),
            ConnectionError::TransferDenied => ConnectionErrorView::TransferDenied,
        }
    }
}

/// What the answer of the server to a login means.
pub fn login_answer(answer: Option<ServerMessage>) -> (r: Result<(), ConnectionError>)
    ensures
        match answer {
            None => r matches Err(e) && e@ == ConnectionErrorView::Closed,
            Some(ServerMessage::LoginResponse { success, reason, greeting, ip }) => if success {
                r is Ok
            } else {
                r matches Err(e) && e@ == ConnectionErrorView::LoginFailed(reason@)
            },
            Some(_) => r matches Err(e) && e@ == ConnectionErrorView::Unexpected,
        },
{
    match answer {
        None => Err(ConnectionError::Closed),
        Some(ServerMessage::LoginResponse { success, reason, .. }) => {
            if success {
                Ok(())
            } else {
                Err(ConnectionError::LoginFailed(reason))
            }
        },
        Some(_) => Err(ConnectionError::Unexpected),
    }
}

/// What the answer of the server to a request for an address means.
pub fn address_answer(answer: Option<ServerMessage>) -> (r: Result<(String, u16), ConnectionError>)
    ensures
        match answer {
            None => r matches Err(e) && e@ == ConnectionErrorView::Closed,
            Some(ServerMessage::PeerAddress { username, ip, port }) => r matches Ok(a) && a.0@
                == ip@ && a.1 == port,
            Some(_) => r matches Err(e) && e@ == ConnectionErrorView::Unexpected,
        },
{
    match answer {
        None => Err(ConnectionError::Closed),
        Some(ServerMessage::PeerAddress { ip, port, .. }) => Ok((ip, port)),
        Some(_) => Err(ConnectionError::Unexpected),
    }
}

/// The message that asks the server for the address of a user.
pub fn address_query(username: &str) -> (m: ServerMessage)
    ensures
        m@ == (ServerMessageView::GetPeerAddress { username: username@ }),
{
    ServerMessage::GetPeerAddress { username: username.to_owned() }
}

/// The message that asks the server for files.
pub fn file_search(token: u32, query: &str) -> (m: ServerMessage)
    ensures
        m@ == (ServerMessageView::FileSearch { token, query: query@ }),
{
    ServerMessage::FileSearch { token, query: query.to_owned() }
}

/// The message that asks a peer for a download.
pub fn transfer_query(token: u32, filename: &str) -> (m: PeerMessage)
    ensures
        m@ == (PeerMessageView::TransferRequest { direction: 0, token, filename: filename@ }),
{
    PeerMessage::TransferRequest { direction: 0, token, filename: filename.to_owned() }
}

/// What the answer of a peer to the request for a download means: the size of the file.
pub fn transfer_answer(answer: Option<PeerMessage>) -> (r: Result<u64, ConnectionError>)
    ensures
        match answer {
            None => r matches Err(e) && e@ == ConnectionErrorView::Closed,
            Some(PeerMessage::TransferReply { token, allowed, filesize }) => if allowed {
                r == Ok::<u64, ConnectionError>(filesize)
            } else {
                r matches Err(e) && e@ == ConnectionErrorView::TransferDenied
            },
            Some(_) => r matches Err(e) && e@ == ConnectionErrorView::Unexpected,
        },
{
    match answer {
        None => Err(ConnectionError::Closed),
        Some(PeerMessage::TransferReply { allowed, filesize, .. }) => {
            if allowed {
                Ok(filesize)
            } else {
                Err(ConnectionError::TransferDenied)
            }
        },
        Some(_) => Err(ConnectionError::Unexpected),
    }
}

/// The message that asks a peer to queue an upload.
pub fn queue_query(filename: &str) -> (m: PeerMessage)
    ensures
        m@ == (PeerMessageView::QueueUpload { filename: filename@ }),
{
    PeerMessage::QueueUpload { filename: filename.to_owned() }
}

/// What the answer of a peer to the request for a place in its queue means: the place.
pub fn queue_place_answer(answer: Option<PeerMessage>) -> (r: Result<u32, ConnectionError>)
    ensures
        match answer {
            None => r matches Err(e) && e@ == ConnectionErrorView::Closed,
            Some(PeerMessage::PlaceInQueueReply { filename, place }) => r == Ok::<
                u32,
                ConnectionError,
            >(place),
            Some(_) => r matches Err(e) && e@ == ConnectionErrorView::Unexpected,
        },
{
    match answer {
        None => Err(ConnectionError::Closed),
        Some(PeerMessage::PlaceInQueueReply { place, .. }) => Ok(place),
        Some(_) => Err(ConnectionError::Unexpected),
    }
}

} // verus!
