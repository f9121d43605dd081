//! Server message router for multiplexed Soulseek server connection.
//!
//! Decides what each message of the server means: a peer to connect to, the address of a
//! peer, a private message.

use crate::protocol::messages::{lemma_four_bytes, read_address, step_address};
use crate::text::{dotted, lowercase, opt_str, same_text, to_lowercase};
use crate::wire::{
    as_slice, bind, buffer_of, contents, frame, law_string_round_trip, law_u32_round_trip,
    lemma_join4, lemma_join5, lemma_join6, lemma_u32_round_trip, message_frame, new_buffer,
    outcome, put_u32_le, read_string, read_u32, read_u8, remaining, step_string, step_u32,
    string_field, u32_bytes, u32_value, viewed, write_string, Halt, Step, WireError,
};
use vstd::prelude::*;
use vstd::utf8::encode_utf8;

verus! {

/// A parsed ConnectToPeer message from the server
#[derive(Debug, Clone)]
pub struct ConnectToPeerMsg {
    pub username: String,
    pub conn_type: String,
    pub ip: String,
    pub port: u32,
    pub token: u32,
}

/// The same with texts as character sequences.
#[verifier::ext_equal]
pub struct ConnectView {
    pub username: Seq<char>,
    pub conn_type: Seq<char>,
    pub ip: Seq<char>,
    pub port: u32,
    pub token: u32,
}

impl View for ConnectToPeerMsg {
    type V = ConnectView;

    open spec fn view(&self) -> ConnectView {
        ConnectView {
            username: self.username@,
            conn_type: self.conn_type@,
            ip: self.ip@,
            port: self.port,
            token: self.token,
        }
    }
}

/// The data of a ConnectToPeer message: username, connection type, address, port, token.
pub open spec fn connect_to_peer(b: Seq<u8>) -> Step<ConnectView> {
    bind(
        step_string(b),
        |username: Seq<char>, b: Seq<u8>|
            bind(
                step_string(b),
                |conn_type: Seq<char>, b: Seq<u8>|
                    bind(
                        step_address(b),
                        |ip: Seq<char>, b: Seq<u8>|
                            bind(
                                step_u32(b),
                                |port: u32, b: Seq<u8>|
                                    bind(
                                        step_u32(b),
                                        |token: u32, b: Seq<u8>|
                                            Step::Done(
                                                ConnectView {
                                                    username,
                                                    conn_type,
                                                    ip,
                                                    port,
                                                    token,
                                                },
                                                b,
                                            ),
                                    ),
                            ),
                    ),
            ),
    )
}

/// Parse a ConnectToPeer message (code 18)
pub fn parse_connect_to_peer(data: &[u8]) -> (r: Result<ConnectToPeerMsg, Halt>)
    ensures
        viewed(r) == outcome(connect_to_peer(data@)),
        r matches Ok(msg) ==> (connect_to_peer(data@) matches Step::Done(v, rest) && msg.username@
            == v.username && msg.conn_type@ == v.conn_type && msg.ip@ == v.ip && msg.port == v.port
            && msg.token == v.token),
{
    let mut buf = buffer_of(data);
    let username = read_string(&mut buf)?;
    let conn_type = read_string(&mut buf)?;
    let ip = read_address(&mut buf)?;
    let port: u32 = read_u32(&mut buf)?;
    let token: u32 = read_u32(&mut buf)?;
    Ok(ConnectToPeerMsg { username, conn_type, ip, port, token })
}

/// Parsed GetPeerAddress response
#[derive(Debug, Clone)]
pub struct PeerAddressResponse {
    pub username: String,
    pub ip: String,
    pub port: u32,
}

/// The same with texts as character sequences.
#[verifier::ext_equal]
pub struct PeerAddressView {
    pub username: Seq<char>,
    pub ip: Seq<char>,
    pub port: u32,
}

impl View for PeerAddressResponse {
    type V = PeerAddressView;

    open spec fn view(&self) -> PeerAddressView {
        PeerAddressView { username: self.username@, ip: self.ip@, port: self.port }
    }
}

/// The data of a peer address: username, address, port.
pub open spec fn peer_address_data(b: Seq<u8>) -> Step<PeerAddressView> {
    bind(
        step_string(b),
        |username: Seq<char>, b: Seq<u8>|
            if b.len() < 8 {
                Step::Failed(WireError::PeerAddressTooShort, b)
            } else {
                bind(
                    step_address(b),
                    |ip: Seq<char>, b: Seq<u8>|
                        bind(
                            step_u32(b),
                            |port: u32, b: Seq<u8>|
                                Step::Done(PeerAddressView { username, ip, port }, b),
                        ),
                )
            },
    )
}

/// Parse a GetPeerAddress response (code 3)
pub fn parse_peer_address(data: &[u8]) -> (r: Result<PeerAddressResponse, WireError>)
    ensures
        match r {
            Ok(response) => outcome(peer_address_data(data@)) == Ok::<PeerAddressView, Halt>(
                response@,
            ),
            Err(e) => outcome(peer_address_data(data@)) == Err::<PeerAddressView, Halt>(
                Halt::Failed(e),
            ),
        },
{
    let mut buf = buffer_of(data);
    let username = match read_string(&mut buf) {
        Ok(s) => s,
        Err(Halt::Failed(e)) => return Err(e),
        Err(Halt::Short) => return Err(WireError::PeerAddressTooShort),
    };
    if remaining(&buf) < 8 {
        return Err(WireError::PeerAddressTooShort);
    }
    match (read_address(&mut buf), read_u32(&mut buf)) {
        (Ok(ip), Ok(port)) => Ok(PeerAddressResponse { username, ip, port }),
        _ => Err(WireError::PeerAddressTooShort),
    }
}

/// A private chat message received from or sent to the Soulseek network
#[derive(Debug, Clone)]
pub struct ChatMessage {
    /// Message ID assigned by the server (for incoming messages)
    pub message_id: Option<u32>,
    /// Unix timestamp from the server
    pub timestamp: u32,
    /// The other user (sender for incoming, recipient for outgoing)
    pub username: String,
    /// The message text
    pub message: String,
    /// Whether this message is incoming (from peer) or outgoing (from us)
    pub incoming: bool,
    /// Whether this was a new message (not a replay of an unacknowledged one)
    pub is_new: bool,
}

/// The same with texts as character sequences.
#[verifier::ext_equal]
pub struct ChatView {
    pub message_id: Option<u32>,
    pub timestamp: u32,
    pub username: Seq<char>,
    pub message: Seq<char>,
    pub incoming: bool,
    pub is_new: bool,
}

impl View for ChatMessage {
    type V = ChatView;

    open spec fn view(&self) -> ChatView {
        ChatView {
            message_id: self.message_id,
            timestamp: self.timestamp,
            username: self.username@,
            message: self.message@,
            incoming: self.incoming,
            is_new: self.is_new,
        }
    }
}

/// The data of a private message: number, time, sender, text, and whether it is new. A
/// message that does not say so is new.
pub open spec fn chat_data(b: Seq<u8>) -> Step<ChatView> {
    if b.len() < 8 {
        Step::Failed(WireError::ChatTooShort, b)
    } else {
        bind(
            step_string(b.skip(4).skip(4)),
            |username: Seq<char>, rest: Seq<u8>|
                bind(
                    step_string(rest),
                    |message: Seq<char>, rest: Seq<u8>|
                        Step::Done(
                            ChatView {
                                message_id: Some(u32_value(b)),
                                timestamp: u32_value(b.skip(4)),
                                username,
                                message,
                                incoming: true,
                                is_new: rest.len() < 1 || rest[0] != 0,
                            },
                            rest,
                        ),
                ),
        )
    }
}

/// Reads the data of a private message.
fn read_chat_message(data: &[u8]) -> (r: Result<ChatMessage, Halt>)
    ensures
        viewed(r) == outcome(chat_data(data@)),
{
    let mut buf = buffer_of(data);
    if remaining(&buf) < 8 {
        return Err(Halt::Failed(WireError::ChatTooShort));
    }
    let message_id: u32 = read_u32(&mut buf)?;
    let timestamp: u32 = read_u32(&mut buf)?;
    let username = read_string(&mut buf)?;
    let message = read_string(&mut buf)?;
    let is_new: bool = if remaining(&buf) >= 1 {
        read_u8(&mut buf)? != 0
    } else {
        true
    };
    Ok(
        ChatMessage {
            message_id: Some(message_id),
            timestamp,
            username,
            message,
            incoming: true,
            is_new,
        },
    )
}

/// Parse an incoming private message (server code 22)
pub fn parse_chat_message(data: &[u8]) -> (r: Result<ChatMessage, WireError>)
    ensures
        match r {
            Ok(message) => outcome(chat_data(data@)) == Ok::<ChatView, Halt>(message@),
            Err(e) => outcome(chat_data(data@)) == Err::<ChatView, Halt>(Halt::Failed(e)),
        },
        r matches Ok(message) ==> message.incoming && message.message_id == Some(u32_value(data@))
            && message.timestamp == u32_value(data@.skip(4)),
{
    match read_chat_message(data) {
        Ok(message) => Ok(message),
        Err(Halt::Failed(e)) => Err(e),
        Err(Halt::Short) => Err(WireError::ChatTooShort),
    }
}

// ---------------------------------------------------------------------------
// Routing
// ---------------------------------------------------------------------------
/// The address to connect to: a peer at our own external address is on this machine or
/// behind the same router, and is reached by the loopback address.
pub open spec fn reachable(external_ip: Option<Seq<char>>, ip: Seq<char>) -> Seq<char> {
    if external_ip == Some(ip) {
        "127.0.0.1"@
    } else {
        ip
    }
}

/// Gives the address to connect to for a peer.
pub fn resolve_ip(external_ip: Option<&str>, ip: &str) -> (r: String)
    ensures
        r@ == reachable(opt_str(external_ip), ip@),
{
    match external_ip {
        Some(external) => {
            if same_text(ip, external) {
                "127.0.0.1".to_owned()
            } else {
                ip.to_owned()
            }
        },
        None => ip.to_owned(),
    }
}

/// What to do about a message of the server.
#[derive(Debug, Clone)]
pub enum RouterMove {
    /// Hand the request to connect for messages to the client.
    ConnectPeer(ConnectToPeerMsg),
    /// Connect to an uploader for a file.
    ConnectFile { ip: String, port: u32, token: u32 },
    /// Hand the address to those who asked for it under the key.
    Address { key: String, response: PeerAddressResponse },
    /// Send the acknowledgment, and keep and pass on the message.
    Chat { ack: Vec<u8>, message: ChatMessage },
    /// The message cannot be read.
    Unreadable(WireError),
    /// Nothing to do.
    Ignore,
    /// A field of fixed size reaches past the end of the message.
    Short,
}

/// The same with texts and data as sequences.
#[verifier::ext_equal]
pub enum RouterMoveView {
    ConnectPeer(ConnectView),
    ConnectFile { ip: Seq<char>, port: u32, token: u32 },
    Address { key: Seq<char>, response: PeerAddressView },
    Chat { ack: Seq<u8>, message: ChatView },
    Unreadable(WireError),
    Ignore,
    Short,
}

impl View for RouterMove {
    type V = RouterMoveView;

    open spec fn view(&self) -> RouterMoveView {
        match *self {
            RouterMove::ConnectPeer(msg) => RouterMoveView::ConnectPeer(msg@),
            RouterMove::ConnectFile { ip, port, token } => RouterMoveView::ConnectFile {
                ip: ip@,
                port,
                token,
            },
            RouterMove::Address { key, response } => RouterMoveView::Address {
                key: key@,
                response: response@,
            },
            RouterMove::Chat { ack, message } => RouterMoveView::Chat {
                ack: ack@,
                message: message@,
            },
            RouterMove::Unreadable(e) => RouterMoveView::Unreadable(e),
            RouterMove::Ignore => RouterMoveView::Ignore,
            RouterMove::Short => RouterMoveView::Short,
        }
    }
}

/// The key under which the address of a user is asked for and handed out.
pub open spec fn address_key(username: Seq<char>) -> Seq<char> {
    lowercase(username)
}

/// What a message of the server means.
pub open spec fn routed(code: u32, data: Seq<u8>, external_ip: Option<Seq<char>>) -> RouterMoveView {
    if code == 18 {
        match outcome(connect_to_peer(data)) {
            Ok(msg) => if msg.conn_type == "P"@ {
                RouterMoveView::ConnectPeer(msg)
            } else if msg.conn_type == "F"@ {
                RouterMoveView::ConnectFile {
                    ip: reachable(external_ip, msg.ip),
                    port: msg.port,
                    token: msg.token,
                }
            } else {
                RouterMoveView::Ignore
            },
            Err(Halt::Failed(e)) => RouterMoveView::Unreadable(e),
            Err(Halt::Short) => RouterMoveView::Short,
        }
    } else if code == 3 {
        match outcome(peer_address_data(data)) {
            Ok(response) => RouterMoveView::Address {
                key: address_key(response.username),
                response,
            },
            Err(Halt::Failed(e)) => RouterMoveView::Unreadable(e),
            Err(Halt::Short) => RouterMoveView::Short,
        }
    } else if code == 22 {
        match outcome(chat_data(data)) {
            Ok(message) => RouterMoveView::Chat {
                ack: frame(23, u32_bytes(u32_value(data))),
                message,
            },
            Err(Halt::Failed(e)) => RouterMoveView::Unreadable(e),
            Err(Halt::Short) => RouterMoveView::Short,
        }
    } else {
        RouterMoveView::Ignore
    }
}

/// Writes the acknowledgment of a private message, so that the server stops resending it.
fn acknowledgment(message_id: u32) -> (message: Vec<u8>)
    ensures
        message@ == frame(23, u32_bytes(message_id)),
{
    let mut ack = new_buffer();
    put_u32_le(&mut ack, message_id);
    assert(contents(ack) =~= u32_bytes(message_id));
    message_frame(23, as_slice(&ack))
}

/// Decides what a message of the server means.
pub fn route_message(code: u32, data: &[u8], external_ip: Option<&str>) -> (m: RouterMove)
    ensures
        m@ == routed(code, data@, opt_str(external_ip)),
{
    if code == 18 {
        match parse_connect_to_peer(data) {
            Ok(msg) => {
                if same_text(msg.conn_type.as_str(), "P") {
                    RouterMove::ConnectPeer(msg)
                } else if same_text(msg.conn_type.as_str(), "F") {
                    RouterMove::ConnectFile {
                        ip: resolve_ip(external_ip, msg.ip.as_str()),
                        port: msg.port,
                        token: msg.token,
                    }
                } else {
                    RouterMove::Ignore
                }
            },
            Err(Halt::Failed(e)) => RouterMove::Unreadable(e),
            Err(Halt::Short) => RouterMove::Short,
        }
    } else if code == 3 {
        match parse_peer_address(data) {
            Ok(response) => RouterMove::Address {
                key: to_lowercase(response.username.as_str()),
                response,
            },
            Err(e) => RouterMove::Unreadable(e),
        }
    } else if code == 22 {
        match parse_chat_message(data) {
            Ok(message) => {
                let id: u32 = match message.message_id {
                    Some(id) => id,
                    None => 0,
                };
                RouterMove::Chat { ack: acknowledgment(id), message }
            },
            Err(e) => RouterMove::Unreadable(e),
        }
    } else {
        RouterMove::Ignore
    }
}

/// A private message that can be read is acknowledged under its own number.
pub proof fn law_chat_is_acknowledged(data: Seq<u8>, external_ip: Option<Seq<char>>)
    requires
        outcome(chat_data(data)) is Ok,
    ensures
        routed(22, data, external_ip) matches RouterMoveView::Chat { ack, message } && {
            &&& message.message_id matches Some(id) && ack == frame(23, u32_bytes(id))
            &&& message.incoming
        },
{
}

// ---------------------------------------------------------------------------
// Chat history
// ---------------------------------------------------------------------------
/// The number of private messages that are kept.
pub const MAX_HISTORY: usize = 500;

/// The last messages of a history, as many as are kept.
pub open spec fn recent(history: Seq<ChatMessage>) -> Seq<ChatMessage> {
    if history.len() > MAX_HISTORY {
        history.skip(history.len() - MAX_HISTORY)
    } else {
        history
    }
}

/// Adds a message to the history, which keeps the last 500.
pub fn remember(history: &mut Vec<ChatMessage>, message: ChatMessage)
    ensures
        final(history)@ == recent(old(history)@.push(message)),
        final(history).len() <= MAX_HISTORY,
        final(history)@.len() > 0 && final(history)@.last() == message,
{
    history.push(message);
    if history.len() > MAX_HISTORY {
        let excess: usize = history.len() - MAX_HISTORY;
        let ghost whole = history@;
        let kept = history.split_off(excess);
        assert(kept@ =~= whole.skip(excess as int));
        *history = kept;
    }
}

/// Records a message that we send.
pub fn outgoing_message(username: &str, message: &str, now: u32) -> (m: ChatMessage)
    ensures
        m@ == (ChatView {
            message_id: None,
            timestamp: now,
            username: username@,
            message: message@,
            incoming: false,
            is_new: true,
        }),
        !m.incoming && m.is_new,
        m.username@ == username@ && m.message@ == message@,
        m.timestamp == now && m.message_id is None,
{
    ChatMessage {
        message_id: None,
        timestamp: now,
        username: username.to_owned(),
        message: message.to_owned(),
        incoming: false,
        is_new: true,
    }
}

// ---------------------------------------------------------------------------
// Messages to the server
// ---------------------------------------------------------------------------
/// Asks for the address of a user. Returns the key under which the answer is handed out
/// and the message.
pub fn address_request(username: &str) -> (r: (String, Vec<u8>))
    ensures
        r.0@ == address_key(username@),
        r.1@ == frame(3, string_field(username@)),
{
    let mut data = new_buffer();
    write_string(&mut data, username);
    assert(contents(data) =~= string_field(username@));
    (to_lowercase(username), message_frame(3, as_slice(&data)))
}

/// Writes a private message to another user.
pub fn private_message(username: &str, message: &str) -> (r: Vec<u8>)
    ensures
        r@ == frame(22, string_field(username@) + string_field(message@)),
{
    let mut data = new_buffer();
    write_string(&mut data, username);
    write_string(&mut data, message);
    assert(contents(data) =~= string_field(username@) + string_field(message@));
    message_frame(22, as_slice(&data))
}

/// Whoever asks for the address of a user finds the answer: it is handed out under the key
/// of the request, in whatever case the server writes the name.
pub proof fn law_address_reaches_those_who_asked(
    username: Seq<char>,
    data: Seq<u8>,
    external_ip: Option<Seq<char>>,
)
    requires
        outcome(peer_address_data(data)) matches Ok(response) && lowercase(response.username)
            == lowercase(username),
    ensures
        routed(3, data, external_ip) matches RouterMoveView::Address { key, .. } && key
            == address_key(username),
{
}

// ---------------------------------------------------------------------------
// Laws
// ---------------------------------------------------------------------------
/// A request of the server to connect to a peer is read as it was written.
#[verifier::spinoff_prover]
pub proof fn law_connect_to_peer_is_read(
    username: Seq<char>,
    conn_type: Seq<char>,
    address: Seq<u8>,
    port: u32,
    token: u32,
    rest: Seq<u8>,
)
    requires
        encode_utf8(username).len() < 0x1_0000_0000,
        encode_utf8(conn_type).len() < 0x1_0000_0000,
        address.len() == 4,
    ensures
        connect_to_peer(
            string_field(username) + string_field(conn_type) + address + u32_bytes(port)
                + u32_bytes(token) + rest,
        ) == Step::Done(
            ConnectView {
                username,
                conn_type,
                ip: dotted(address[3], address[2], address[1], address[0]),
                port,
                token,
            },
            rest,
        ),
{
    let d = u32_bytes(token) + rest;
    let c = u32_bytes(port) + d;
    let b = address + c;
    let a = string_field(conn_type) + b;
    law_u32_round_trip(token, rest, Seq::empty());
    law_u32_round_trip(port, d, Seq::empty());
    lemma_four_bytes(address, c);
    law_string_round_trip(conn_type, b);
    law_string_round_trip(username, a);
    lemma_join6(
        string_field(username),
        string_field(conn_type),
        address,
        u32_bytes(port),
        u32_bytes(token),
        rest,
    );
    lemma_connect_parts(
        string_field(username) + a,
        username,
        a,
        conn_type,
        b,
        dotted(address[3], address[2], address[1], address[0]),
        c,
        port,
        d,
        token,
        rest,
    );
}

/// What the parts of a request to connect make of it.
proof fn lemma_connect_parts(
    whole: Seq<u8>,
    username: Seq<char>,
    a: Seq<u8>,
    conn_type: Seq<char>,
    b: Seq<u8>,
    ip: Seq<char>,
    c: Seq<u8>,
    port: u32,
    d: Seq<u8>,
    token: u32,
    rest: Seq<u8>,
)
    requires
        step_string(whole) == Step::Done(username, a),
        step_string(a) == Step::Done(conn_type, b),
        step_address(b) == Step::Done(ip, c),
        step_u32(c) == Step::Done(port, d),
        step_u32(d) == Step::Done(token, rest),
    ensures
        connect_to_peer(whole) == Step::Done(
            ConnectView { username, conn_type, ip, port, token },
            rest,
        ),
{
}

/// The address of a peer is read as it was written; one that is cut off is refused.
#[verifier::spinoff_prover]
pub proof fn law_address_data_is_read(
    username: Seq<char>,
    address: Seq<u8>,
    port: u32,
    rest: Seq<u8>,
    short: Seq<u8>,
)
    requires
        encode_utf8(username).len() < 0x1_0000_0000,
        address.len() == 4,
        short.len() < 8,
    ensures
        peer_address_data(string_field(username) + address + u32_bytes(port) + rest) == Step::Done(
            PeerAddressView {
                username,
                ip: dotted(address[3], address[2], address[1], address[0]),
                port,
            },
            rest,
        ),
        outcome(peer_address_data(string_field(username) + short)) == Err::<PeerAddressView, Halt>(
            Halt::Failed(WireError::PeerAddressTooShort),
        ),
{
    let b = u32_bytes(port) + rest;
    let a = address + b;
    law_u32_round_trip(port, rest, Seq::empty());
    lemma_four_bytes(address, b);
    law_string_round_trip(username, a);
    lemma_join4(string_field(username), address, u32_bytes(port), rest);
    law_string_round_trip(username, short);
}

/// A private message is read as the server wrote it: its number, its time, who sent it and
/// what it says. It comes in, and is new unless the server says that it is not.
pub proof fn law_chat_message_is_read(
    message_id: u32,
    timestamp: u32,
    username: Seq<char>,
    message: Seq<char>,
    flag: u8,
)
    requires
        encode_utf8(username).len() < 0x1_0000_0000,
        encode_utf8(message).len() < 0x1_0000_0000,
    ensures
        ({
            let head = u32_bytes(message_id) + u32_bytes(timestamp) + string_field(username)
                + string_field(message);
            let told = outcome(chat_data(head + seq![flag]));
            let untold = outcome(chat_data(head));
            &&& told == Ok::<ChatView, Halt>(
                ChatView {
                    message_id: Some(message_id),
                    timestamp,
                    username,
                    message,
                    incoming: true,
                    is_new: flag != 0,
                },
            )
            &&& untold == Ok::<ChatView, Halt>(
                ChatView {
                    message_id: Some(message_id),
                    timestamp,
                    username,
                    message,
                    incoming: true,
                    is_new: true,
                },
            )
        }),
{
    lemma_chat_head(message_id, timestamp, username, message, seq![flag]);
    lemma_chat_head(message_id, timestamp, username, message, Seq::empty());
    crate::wire::lemma_append_nothing(
        u32_bytes(message_id) + u32_bytes(timestamp) + string_field(username) + string_field(
            message,
        ),
    );
}

/// A private message is read up to the byte that says whether it is new.
#[verifier::spinoff_prover]
proof fn lemma_chat_head(
    message_id: u32,
    timestamp: u32,
    username: Seq<char>,
    message: Seq<char>,
    rest: Seq<u8>,
)
    requires
        encode_utf8(username).len() < 0x1_0000_0000,
        encode_utf8(message).len() < 0x1_0000_0000,
    ensures
        chat_data(
            u32_bytes(message_id) + u32_bytes(timestamp) + string_field(username) + string_field(
                message,
            ) + rest,
        ) == Step::Done(
            ChatView {
                message_id: Some(message_id),
                timestamp,
                username,
                message,
                incoming: true,
                is_new: rest.len() < 1 || rest[0] != 0,
            },
            rest,
        ),
{
    let c = string_field(message) + rest;
    let b = string_field(username) + c;
    let a = u32_bytes(timestamp) + b;
    lemma_u32_round_trip(timestamp, b);
    lemma_u32_round_trip(message_id, a);
    law_string_round_trip(username, c);
    law_string_round_trip(message, rest);
    lemma_join5(
        u32_bytes(message_id),
        u32_bytes(timestamp),
        string_field(username),
        string_field(message),
        rest,
    );
    lemma_chat_parts(
        u32_bytes(message_id) + a,
        message_id,
        timestamp,
        b,
        username,
        c,
        message,
        rest,
    );
}

/// What the parts of a private message make of it.
proof fn lemma_chat_parts(
    whole: Seq<u8>,
    message_id: u32,
    timestamp: u32,
    b: Seq<u8>,
    username: Seq<char>,
    c: Seq<u8>,
    message: Seq<char>,
    rest: Seq<u8>,
)
    requires
        whole.len() >= 8,
        u32_value(whole) == message_id,
        u32_value(whole.skip(4)) == timestamp,
        whole.skip(4).skip(4) == b,
        step_string(b) == Step::Done(username, c),
        step_string(c) == Step::Done(message, rest),
    ensures
        chat_data(whole) == Step::Done(
            ChatView {
                message_id: Some(message_id),
                timestamp,
                username,
                message,
                incoming: true,
                is_new: rest.len() < 1 || rest[0] != 0,
            },
            rest,
        ),
{
}

/// A peer at our own external address is reached by the loopback address, and every other one
/// at its own.
pub proof fn law_own_address_is_the_loopback(external_ip: Seq<char>, ip: Seq<char>)
    ensures
        reachable(Some(ip), ip) == "127.0.0.1"@,
        external_ip != ip ==> reachable(Some(external_ip), ip) == ip,
        reachable(None, ip) == ip,
{
}

/// A request to connect goes by its kind: one for messages is handed on as it is, one for a
/// file leads to the address at which the peer is reached, with the port and the token that
/// the server gives, and one of another kind to nothing.
pub proof fn law_connect_requests_are_routed_by_kind(
    data: Seq<u8>,
    external_ip: Option<Seq<char>>,
)
    ensures
        outcome(connect_to_peer(data)) matches Ok(msg) ==> {
            &&& msg.conn_type == "P"@ ==> routed(18, data, external_ip)
                == RouterMoveView::ConnectPeer(msg)
            &&& msg.conn_type == "F"@ ==> routed(18, data, external_ip) == (
            RouterMoveView::ConnectFile {
                ip: if external_ip == Some(msg.ip) {
                    "127.0.0.1"@
                } else {
                    msg.ip
                },
                port: msg.port,
                token: msg.token,
            })
            &&& msg.conn_type != "P"@ && msg.conn_type != "F"@ ==> routed(18, data, external_ip)
                == RouterMoveView::Ignore
        },
        outcome(connect_to_peer(data)) matches Err(Halt::Failed(e)) ==> routed(
            18,
            data,
            external_ip,
        ) == RouterMoveView::Unreadable(e),
        outcome(connect_to_peer(data)) == Err::<ConnectView, Halt>(Halt::Short) ==> routed(
            18,
            data,
            external_ip,
        ) == RouterMoveView::Short,
{
    assert("P"@ != "F"@) by {
        reveal_strlit("P");
        reveal_strlit("F");
        assert("P"@[0] != "F"@[0]);
    }
}

/// An address and a private message are handed on with all that they say, and what cannot be
/// read is told. Messages with other codes are ignored.
pub proof fn law_messages_are_routed(code: u32, data: Seq<u8>, external_ip: Option<Seq<char>>)
    ensures
        outcome(peer_address_data(data)) matches Ok(response) ==> (routed(
            3,
            data,
            external_ip,
        ) matches RouterMoveView::Address { key, response: r } && r == response && key
            == lowercase(response.username)),
        outcome(chat_data(data)) matches Ok(message) ==> (routed(
            22,
            data,
            external_ip,
        ) matches RouterMoveView::Chat { ack, message: m } && m == message),
        outcome(peer_address_data(data)) matches Err(Halt::Failed(e)) ==> routed(
            3,
            data,
            external_ip,
        ) == RouterMoveView::Unreadable(e),
        outcome(chat_data(data)) matches Err(Halt::Failed(e)) ==> routed(22, data, external_ip)
            == RouterMoveView::Unreadable(e),
        code != 3 && code != 18 && code != 22 ==> routed(code, data, external_ip)
            == RouterMoveView::Ignore,
{
}

/// The history keeps the last 500 messages in their order: what is kept is an end of what was
/// there, all of it where that is no more than 500, and else 500 of them.
pub proof fn law_history_keeps_the_last(history: Seq<ChatMessage>, i: int)
    ensures
        recent(history).len() == if history.len() <= 500 {
            history.len()
        } else {
            500
        },
        0 <= i < recent(history).len() ==> recent(history)[i] == history[history.len() - recent(
            history,
        ).len() + i],
{
}

/// A private message that is cut off before its time is refused, and so is one whose sender
/// or text cannot be read.
pub proof fn law_cut_off_chat_is_refused(short: Seq<u8>, head: Seq<u8>)
    requires
        short.len() < 8,
        head.len() == 8,
    ensures
        outcome(chat_data(short)) == Err::<ChatView, Halt>(Halt::Failed(WireError::ChatTooShort)),
        outcome(chat_data(head)) == Err::<ChatView, Halt>(Halt::Failed(WireError::StringLength)),
{
}

} // verus!
