//! Peer protocol helpers for Soulseek P2P connections
//!
//! This module provides low-level peer protocol operations including:
//! - PeerInit and PierceFirewall message handling
//! - File transfer connection management
//! - Both direct and indirect file transfer paths
//!
//! What is read from and sent to a stream goes through state machines: they say what to
//! read next, what to send, and when a connection is settled.

use crate::protocol::messages::{
    attribute_bytes, file_bytes, file_fits, files_bytes, lemma_file_parts, lemma_first_and_others,
    lemma_first_file, FileAttribute, SearchFileView,
};
use crate::protocol::router::{
    connect_to_peer, law_connect_to_peer_is_read, parse_connect_to_peer,
};
use crate::text::{contains, dotted, lowercase, occurs, push_decimal, same_text, to_lowercase};
use crate::wire::{
    as_slice, bind, buffer_of, bytes_of, contents, frame, law_string_round_trip,
    law_u32_round_trip, law_u64_round_trip, lemma_join3, lemma_join4, lemma_join5,
    lemma_u32_round_trip, length_field, low32, message_frame, new_buffer, outcome, put_u32_le,
    put_u8, read_string, read_u32, read_u64, read_u8, remaining, step_string, step_u32, step_u64,
    string_field, u32_bytes, u32_value, u64_bytes, u64_value, viewed, write_string, Halt, Step,
    WireError,
};
use bytes::BytesMut;
use std::io::Read;
use vstd::prelude::*;
use vstd::utf8::encode_utf8;

verus! {

// ---------------------------------------------------------------------------
// Messages to peers
// ---------------------------------------------------------------------------
/// Encode a string (length-prefixed) into a BytesMut buffer
pub fn encode_string(buf: &mut BytesMut, s: &str)
    ensures
        contents(*final(buf)) == contents(*old(buf)) + string_field(s@),
{
    write_string(buf, s);
}

/// How many bytes of data follow the code of a message, or `None` where the length field
/// leaves no room for a code.
pub fn data_length(msg_len: u32) -> (r: Option<u32>)
    ensures
        r == if msg_len < 4 {
            None
        } else {
            Some((msg_len - 4) as u32)
        },
{
    if msg_len < 4 {
        None
    } else {
        Some(msg_len - 4)
    }
}

/// A PeerInit message: [length:u32][type=1:u8][username:string][conn_type:string][token:u32],
/// with a token of zero.
pub open spec fn peer_init(username: Seq<char>, conn_type: Seq<char>) -> Seq<u8> {
    u32_bytes(length_field(13 + encode_utf8(username).len() + encode_utf8(conn_type).len()))
        + seq![1u8] + string_field(username) + string_field(conn_type) + u32_bytes(0)
}

/// A PierceFirewall message: [length=5:u32][type=0:u8][token:u32].
pub open spec fn pierce_firewall(token: u32) -> Seq<u8> {
    u32_bytes(5) + seq![0u8] + u32_bytes(token)
}

/// Writes a PeerInit message.
pub fn peer_init_message(username: &str, conn_type: &str) -> (message: Vec<u8>)
    ensures
        message@ == peer_init(username@, conn_type@),
{
    let len: u32 = init_length(username.as_bytes().len(), conn_type.as_bytes().len());
    let mut buf = new_buffer();
    put_u32_le(&mut buf, len);
    put_u8(&mut buf, 1);
    write_string(&mut buf, username);
    write_string(&mut buf, conn_type);
    put_u32_le(&mut buf, 0);
    assert(contents(buf) =~= peer_init(username@, conn_type@));
    bytes_of(buf)
}

/// The length field of a PeerInit message.
fn init_length(a: usize, b: usize) -> (len: u32)
    ensures
        len == length_field(13 + a as nat + b as nat),
{
    let first: u32 = low32(a).wrapping_add(low32(b));
    first.wrapping_add(13)
}

/// Writes a PierceFirewall message.
pub fn pierce_firewall_message(token: u32) -> (message: Vec<u8>)
    ensures
        message@ == pierce_firewall(token),
{
    let mut buf = new_buffer();
    put_u32_le(&mut buf, 5);
    put_u8(&mut buf, 0);
    put_u32_le(&mut buf, token);
    assert(contents(buf) =~= pierce_firewall(token));
    bytes_of(buf)
}

/// Writes the message that tells the server that a peer cannot be reached:
/// [length:u32][code=1001:u32][token:u32][username:string].
pub fn cant_connect_message(token: u32, username: &str) -> (message: Vec<u8>)
    ensures
        message@ == frame(1001, u32_bytes(token) + string_field(username@)),
{
    let mut buf = new_buffer();
    put_u32_le(&mut buf, token);
    write_string(&mut buf, username);
    assert(contents(buf) =~= u32_bytes(token) + string_field(username@));
    message_frame(1001, as_slice(&buf))
}

/// Writes a QueueUpload message: [length][code=43][filename].
pub fn queue_upload_message(filename: &str) -> (message: Vec<u8>)
    ensures
        message@ == frame(43, string_field(filename@)),
{
    let mut buf = new_buffer();
    write_string(&mut buf, filename);
    assert(contents(buf) =~= string_field(filename@));
    message_frame(43, as_slice(&buf))
}

/// Writes the request of a download: [length][code=40][direction=0][token][filename].
pub fn transfer_request_message(token: u32, filename: &str) -> (message: Vec<u8>)
    ensures
        message@ == frame(40, u32_bytes(0) + u32_bytes(token) + string_field(filename@)),
{
    let mut buf = new_buffer();
    put_u32_le(&mut buf, 0);
    put_u32_le(&mut buf, token);
    write_string(&mut buf, filename);
    assert(contents(buf) =~= u32_bytes(0) + u32_bytes(token) + string_field(filename@));
    message_frame(40, as_slice(&buf))
}

/// Writes the answer that lets a peer upload to us: [length][code=41][token][allowed=1].
pub fn transfer_allowed_message(token: u32) -> (message: Vec<u8>)
    ensures
        message@ == frame(41, u32_bytes(token).push(1)),
{
    let mut buf = new_buffer();
    put_u32_le(&mut buf, token);
    put_u8(&mut buf, 1);
    assert(contents(buf) =~= u32_bytes(token).push(1));
    message_frame(41, as_slice(&buf))
}

// ---------------------------------------------------------------------------
// Connection handshakes
// ---------------------------------------------------------------------------
/// The body of a PeerInit message: username, connection type and token.
pub open spec fn init_body(b: Seq<u8>) -> Step<(Seq<char>, Seq<char>, u32)> {
    bind(
        step_string(b),
        |username: Seq<char>, b: Seq<u8>|
            bind(
                step_string(b),
                |conn_type: Seq<char>, b: Seq<u8>|
                    bind(
                        step_u32(b),
                        |token: u32, b: Seq<u8>| Step::Done((username, conn_type, token), b),
                    ),
            ),
    )
}

/// Reads the body of a PeerInit message
///
/// Returns (username, conn_type, token)
pub fn parse_peer_init(data: &[u8]) -> (r: Result<(String, String, u32), Halt>)
    ensures
        match r {
            Ok((username, conn_type, token)) => outcome(init_body(data@)) == Ok::<_, Halt>(
                (username@, conn_type@, token),
            ),
            Err(h) => outcome(init_body(data@)) == Err::<(Seq<char>, Seq<char>, u32), Halt>(h),
        },
{
    let mut buf = buffer_of(data);
    let username = read_string(&mut buf)?;
    let conn_type = read_string(&mut buf)?;
    let token: u32 = read_u32(&mut buf)?;
    Ok((username, conn_type, token))
}

/// What to read from the stream next.
#[derive(Debug, Clone, Copy, PartialEq, Eq, Structural)]
pub enum Want {
    Byte,
    Word,
    Data(u32),
}

/// What came of the last read.
#[derive(Debug, Clone)]
pub enum Input {
    Byte(u8),
    Word(u32),
    Data(Vec<u8>),
    /// Nothing came in time.
    TimedOut,
    /// The read failed.
    Broken,
}

/// What came of the last read, with the data as a sequence.
#[verifier::ext_equal]
pub enum InputView {
    Byte(u8),
    Word(u32),
    Data(Seq<u8>),
    TimedOut,
    Broken,
}

impl View for Input {
    type V = InputView;

    open spec fn view(&self) -> InputView {
        match *self {
            Input::Byte(b) => InputView::Byte(b),
            Input::Word(w) => InputView::Word(w),
            Input::Data(d) => InputView::Data(d@),
            Input::TimedOut => InputView::TimedOut,
            Input::Broken => InputView::Broken,
        }
    }
}

/// How far the handshake of a connection has come.
#[derive(Debug, Clone, Copy, PartialEq, Eq, Structural)]
pub enum Handshake {
    /// A peer connected to us: its first four bytes are due.
    Incoming,
    /// Of an incoming PierceFirewall, the type is due.
    PierceType,
    /// Of an incoming PierceFirewall, the token is due.
    PierceToken,
    /// Of an incoming PeerInit of `len` bytes, the type is due.
    InitType { len: u32 },
    /// Of an incoming PeerInit, the body is due.
    InitBody,
    /// We connected to an uploader and sent PierceFirewall: its first four bytes are due.
    Indirect,
    /// Of the uploader's PeerInit of `len` bytes, the type is due.
    IndirectType { len: u32 },
    /// Of the uploader's PeerInit, the body is due.
    IndirectBody,
    /// We connected to a peer for a transfer and sent PeerInit: an answer may come.
    Proactive { token: u32 },
    /// Of the answer of `len` bytes, the type is due.
    ProactiveType { len: u32, token: u32 },
    /// Of the answer, the body is due.
    ProactiveBody { token: u32 },
    /// The token of the transfer is due, without a length before it.
    TransferToken,
}

/// Why a handshake failed.
#[derive(Debug, Clone, Copy, PartialEq, Eq, Structural)]
pub enum HandshakeError {
    /// The peer sent a message that cannot be read.
    Wire(WireError),
    /// A PeerInit was due, and a message of another type came.
    NotPeerInit(u8),
    /// The connection is neither for files nor for messages.
    UnknownConnectionType,
    /// The stream ended or timed out where something was due.
    NothingRead,
}

/// What to do next in a handshake.
#[derive(Debug, Clone)]
pub enum HandshakeMove {
    /// Send the message, which may be empty, then read and go on in the given state.
    Read { send: Vec<u8>, want: Want, state: Handshake },
    /// The connection is for the file transfer with this token. The message, which may be
    /// empty, is still to be sent.
    File { send: Vec<u8>, transfer_token: u32 },
    /// The connection is for messages of a peer. The message is still to be sent.
    Peer { send: Vec<u8>, username: String, token: u32 },
    /// The connection is of no use.
    Refused(HandshakeError),
    /// A field of fixed size reaches past the end of a message.
    Short,
}

/// What to do next in a handshake, with texts and data as sequences.
#[verifier::ext_equal]
pub enum HandshakeMoveView {
    Read { send: Seq<u8>, want: Want, state: Handshake },
    File { send: Seq<u8>, transfer_token: u32 },
    Peer { send: Seq<u8>, username: Seq<char>, token: u32 },
    Refused(HandshakeError),
    Short,
}

impl View for HandshakeMove {
    type V = HandshakeMoveView;

    open spec fn view(&self) -> HandshakeMoveView {
        match *self {
            HandshakeMove::Read { send, want, state } => HandshakeMoveView::Read {
                send: send@,
                want,
                state,
            },
            HandshakeMove::File { send, transfer_token } => HandshakeMoveView::File {
                send: send@,
                transfer_token,
            },
            HandshakeMove::Peer { send, username, token } => HandshakeMoveView::Peer {
                send: send@,
                username: username@,
                token,
            },
            HandshakeMove::Refused(e) => HandshakeMoveView::Refused(e),
            HandshakeMove::Short => HandshakeMoveView::Short,
        }
    }
}

/// Whether a first length field is that of a PeerInit message.
pub open spec fn init_sized(n: u32) -> bool {
    5 < n < 200
}

/// The lengths of messages that a handshake waits for are those of PeerInit messages.
pub open spec fn handshake_ok(state: Handshake) -> bool {
    match state {
        Handshake::InitType { len } => init_sized(len),
        Handshake::IndirectType { len } => init_sized(len),
        Handshake::ProactiveType { len, token } => init_sized(len),
        _ => true,
    }
}

/// Reading on without sending.
pub open spec fn quiet(want: Want, state: Handshake) -> HandshakeMoveView {
    HandshakeMoveView::Read { send: Seq::empty(), want, state }
}

/// The next move after the body of an incoming PeerInit: a connection for files goes on
/// with the transfer token and sends nothing; one for messages is answered.
pub open spec fn after_init(data: Seq<u8>, our_username: Seq<char>) -> HandshakeMoveView {
    match init_body(data) {
        Step::Done((username, conn_type, token), rest) => {
            if conn_type == "F"@ {
                quiet(Want::Word, Handshake::TransferToken)
            } else if conn_type == "P"@ {
                HandshakeMoveView::Peer { send: peer_init(our_username, "P"@), username, token }
            } else {
                HandshakeMoveView::Refused(HandshakeError::UnknownConnectionType)
            }
        },
        Step::Failed(e, rest) => HandshakeMoveView::Refused(HandshakeError::Wire(e)),
        Step::Short => HandshakeMoveView::Short,
    }
}

/// The connection is ours to announce: the token of the transfer is sent.
pub open spec fn announce(token: u32) -> HandshakeMoveView {
    HandshakeMoveView::File { send: u32_bytes(token), transfer_token: token }
}

/// The next move of a handshake.
pub open spec fn handshake_next(
    state: Handshake,
    input: InputView,
    our_username: Seq<char>,
) -> HandshakeMoveView {
    match (state, input) {
        (Handshake::Incoming, InputView::Word(n)) => {
            if n == 5 {
                quiet(Want::Byte, Handshake::PierceType)
            } else if init_sized(n) {
                quiet(Want::Byte, Handshake::InitType { len: n })
            } else {
                HandshakeMoveView::File { send: Seq::empty(), transfer_token: n }
            }
        },
        (Handshake::PierceType, InputView::Byte(_)) => quiet(Want::Word, Handshake::PierceToken),
        (Handshake::PierceToken, InputView::Word(_)) => HandshakeMoveView::Read {
            send: peer_init(our_username, "F"@),
            want: Want::Word,
            state: Handshake::TransferToken,
        },
        (Handshake::InitType { len }, InputView::Byte(t)) => {
            if t == 1 {
                quiet(Want::Data((len - 1) as u32), Handshake::InitBody)
            } else {
                HandshakeMoveView::Refused(HandshakeError::NotPeerInit(t))
            }
        },
        (Handshake::InitBody, InputView::Data(data)) => after_init(data, our_username),
        (Handshake::Indirect, InputView::Word(n)) => {
            if init_sized(n) {
                quiet(Want::Byte, Handshake::IndirectType { len: n })
            } else {
                HandshakeMoveView::File { send: Seq::empty(), transfer_token: n }
            }
        },
        (Handshake::IndirectType { len }, InputView::Byte(t)) => {
            if t == 1 {
                quiet(Want::Data((len - 1) as u32), Handshake::IndirectBody)
            } else {
                quiet(Want::Word, Handshake::TransferToken)
            }
        },
        (Handshake::IndirectBody, InputView::Data(_)) => quiet(
            Want::Word,
            Handshake::TransferToken,
        ),
        (Handshake::Proactive { token }, InputView::Word(n)) => {
            if init_sized(n) {
                quiet(Want::Byte, Handshake::ProactiveType { len: n, token })
            } else {
                announce(token)
            }
        },
        (Handshake::Proactive { token }, InputView::TimedOut) => announce(token),
        (Handshake::Proactive { token }, InputView::Broken) => announce(token),
        (Handshake::ProactiveType { len, token }, InputView::Byte(t)) => {
            if t == 1 {
                quiet(Want::Data((len - 1) as u32), Handshake::ProactiveBody { token })
            } else {
                announce(token)
            }
        },
        (Handshake::ProactiveBody { token }, InputView::Data(_)) => announce(token),
        (Handshake::TransferToken, InputView::Word(n)) => HandshakeMoveView::File {
            send: Seq::empty(),
            transfer_token: n,
        },
        _ => HandshakeMoveView::Refused(HandshakeError::NothingRead),
    }
}

/// Reads on without sending.
fn read_on(want: Want, state: Handshake) -> (m: HandshakeMove)
    ensures
        m@ == quiet(want, state),
{
    let send: Vec<u8> = Vec::new();
    assert(send@ =~= Seq::<u8>::empty());
    HandshakeMove::Read { send, want, state }
}

/// The connection carries the file with this token.
fn carries(transfer_token: u32) -> (m: HandshakeMove)
    ensures
        m@ == (HandshakeMoveView::File { send: Seq::empty(), transfer_token }),
{
    let send: Vec<u8> = Vec::new();
    assert(send@ =~= Seq::<u8>::empty());
    HandshakeMove::File { send, transfer_token }
}

/// Announces the token of a transfer on a connection that we opened.
fn announces(token: u32) -> (m: HandshakeMove)
    ensures
        m@ == announce(token),
{
    let mut buf = new_buffer();
    put_u32_le(&mut buf, token);
    assert(contents(buf) =~= u32_bytes(token));
    HandshakeMove::File { send: bytes_of(buf), transfer_token: token }
}

/// Decides what follows the body of an incoming PeerInit.
fn accept_init(data: &[u8], our_username: &str) -> (m: HandshakeMove)
    ensures
        m@ == after_init(data@, our_username@),
{
    match parse_peer_init(data) {
        Ok((username, conn_type, token)) => {
            if same_text(conn_type.as_str(), "F") {
                read_on(Want::Word, Handshake::TransferToken)
            } else if same_text(conn_type.as_str(), "P") {
                HandshakeMove::Peer { send: peer_init_message(our_username, "P"), username, token }
            } else {
                HandshakeMove::Refused(HandshakeError::UnknownConnectionType)
            }
        },
        Err(Halt::Failed(e)) => HandshakeMove::Refused(HandshakeError::Wire(e)),
        Err(Halt::Short) => HandshakeMove::Short,
    }
}

/// Decides the next move of a handshake from what was read.
pub fn handshake_step(state: Handshake, input: Input, our_username: &str) -> (m: HandshakeMove)
    requires
        handshake_ok(state),
    ensures
        m@ == handshake_next(state, input@, our_username@),
        m matches HandshakeMove::Read { send, want, state } ==> handshake_ok(state),
{
    match (state, input) {
        (Handshake::Incoming, Input::Word(n)) => {
            if n == 5 {
                read_on(Want::Byte, Handshake::PierceType)
            } else if n > 5 && n < 200 {
                read_on(Want::Byte, Handshake::InitType { len: n })
            } else {
                carries(n)
            }
        },
        (Handshake::PierceType, Input::Byte(_)) => read_on(Want::Word, Handshake::PierceToken),
        (Handshake::PierceToken, Input::Word(_)) => HandshakeMove::Read {
            send: peer_init_message(our_username, "F"),
            want: Want::Word,
            state: Handshake::TransferToken,
        },
        (Handshake::InitType { len }, Input::Byte(t)) => {
            if t == 1 {
                read_on(Want::Data(len - 1), Handshake::InitBody)
            } else {
                HandshakeMove::Refused(HandshakeError::NotPeerInit(t))
            }
        },
        (Handshake::InitBody, Input::Data(data)) => accept_init(data.as_slice(), our_username),
        (Handshake::Indirect, Input::Word(n)) => {
            if n > 5 && n < 200 {
                read_on(Want::Byte, Handshake::IndirectType { len: n })
            } else {
                carries(n)
            }
        },
        (Handshake::IndirectType { len }, Input::Byte(t)) => {
            if t == 1 {
                read_on(Want::Data(len - 1), Handshake::IndirectBody)
            } else {
                read_on(Want::Word, Handshake::TransferToken)
            }
        },
        (Handshake::IndirectBody, Input::Data(_)) => read_on(Want::Word, Handshake::TransferToken),
        (Handshake::Proactive { token }, Input::Word(n)) => {
            if n > 5 && n < 200 {
                read_on(Want::Byte, Handshake::ProactiveType { len: n, token })
            } else {
                announces(token)
            }
        },
        (Handshake::Proactive { token }, Input::TimedOut) => announces(token),
        (Handshake::Proactive { token }, Input::Broken) => announces(token),
        (Handshake::ProactiveType { len, token }, Input::Byte(t)) => {
            if t == 1 {
                read_on(Want::Data(len - 1), Handshake::ProactiveBody { token })
            } else {
                announces(token)
            }
        },
        (Handshake::ProactiveBody { token }, Input::Data(_)) => announces(token),
        (Handshake::TransferToken, Input::Word(n)) => carries(n),
        _ => HandshakeMove::Refused(HandshakeError::NothingRead),
    }
}

/// The body of a PeerInit that was written is read back as what was written, with a token
/// of zero. Texts of four gigabytes or more do not fit their length fields.
pub proof fn law_peer_init_round_trip(username: Seq<char>, conn_type: Seq<char>)
    requires
        encode_utf8(username).len() < 0x1_0000_0000,
        encode_utf8(conn_type).len() < 0x1_0000_0000,
    ensures
        init_body(peer_init(username, conn_type).skip(5)) == Step::Done(
            (username, conn_type, 0u32),
            Seq::<u8>::empty(),
        ),
{
    let whole = peer_init(username, conn_type);
    let tail = string_field(conn_type) + u32_bytes(0);
    assert(whole.skip(5) =~= string_field(username) + tail);
    crate::wire::law_string_round_trip(username, tail);
    crate::wire::law_string_round_trip(conn_type, u32_bytes(0));
    crate::wire::lemma_u32_round_trip(0, Seq::empty());
    assert(u32_bytes(0) + Seq::<u8>::empty() =~= u32_bytes(0));
}

/// A peer that opens with our own PeerInit for messages is taken for that peer: the three
/// reads of the handshake end with its name, and it is answered with a PeerInit of ours.
/// Names so long that the message is not taken for a PeerInit are left out.
pub proof fn law_peer_init_is_accepted(username: Seq<char>, our_username: Seq<char>)
    requires
        13 + encode_utf8(username).len() + encode_utf8("P"@).len() < 200,
    ensures
        ({
            let whole = peer_init(username, "P"@);
            let n = u32_value(whole);
            &&& handshake_next(Handshake::Incoming, InputView::Word(n), our_username) == quiet(
                Want::Byte,
                Handshake::InitType { len: n },
            )
            &&& handshake_next(
                Handshake::InitType { len: n },
                InputView::Byte(whole[4]),
                our_username,
            ) == quiet(Want::Data((n - 1) as u32), Handshake::InitBody)
            &&& whole.skip(5).len() == n - 1
            &&& handshake_next(
                Handshake::InitBody,
                InputView::Data(whole.skip(5)),
                our_username,
            ) == (HandshakeMoveView::Peer {
                send: peer_init(our_username, "P"@),
                username,
                token: 0,
            })
        }),
{
    lemma_peer_init_shape(username, "P"@);
    law_peer_init_round_trip(username, "P"@);
    assert("P"@ != "F"@) by {
        reveal_strlit("P");
        reveal_strlit("F");
        assert("P"@[0] != "F"@[0]);
    }
}

/// A PeerInit message starts with its length and its type.
#[verifier::spinoff_prover]
proof fn lemma_peer_init_shape(username: Seq<char>, conn_type: Seq<char>)
    requires
        13 + encode_utf8(username).len() + encode_utf8(conn_type).len() < 0x1_0000_0000,
    ensures
        ({
            let whole = peer_init(username, conn_type);
            let size = 13 + encode_utf8(username).len() + encode_utf8(conn_type).len();
            &&& u32_value(whole) == size
            &&& whole[4] == 1
            &&& whole.skip(5).len() == size - 1
        }),
{
    lemma_init_parts(encode_utf8(username), encode_utf8(conn_type));
}

/// The same of the parts of the message, whatever the two texts are.
#[verifier::spinoff_prover]
proof fn lemma_init_parts(a: Seq<u8>, b: Seq<u8>)
    requires
        13 + a.len() + b.len() < 0x1_0000_0000,
    ensures
        ({
            let whole = u32_bytes(length_field(13 + a.len() + b.len())) + seq![1u8] + (u32_bytes(
                length_field(a.len()),
            ) + a) + (u32_bytes(length_field(b.len())) + b) + u32_bytes(0);
            &&& u32_value(whole) == 13 + a.len() + b.len()
            &&& whole[4] == 1
            &&& whole.skip(5).len() == 12 + a.len() + b.len()
        }),
{
    let n = length_field(13 + a.len() + b.len());
    let head = u32_bytes(n);
    let c = u32_bytes(length_field(a.len())) + a;
    let d = u32_bytes(length_field(b.len())) + b;
    let rest = seq![1u8] + c + d + u32_bytes(0);
    crate::wire::lemma_u32_round_trip(n, rest);
    crate::wire::lemma_u32_round_trip(length_field(a.len()), a);
    crate::wire::lemma_u32_round_trip(length_field(b.len()), b);
    crate::wire::lemma_u32_round_trip(0, Seq::empty());
    assert(head + seq![1u8] + c + d + u32_bytes(0) =~= head + rest);
    assert((head + rest)[4] == rest[0]);
}

/// An uploader that opens a connection for files is not answered: it waits for the offset
/// that follows its transfer token.
pub proof fn law_file_connection_is_not_answered(
    data: Seq<u8>,
    our_username: Seq<char>,
    username: Seq<char>,
    token: u32,
    rest: Seq<u8>,
)
    requires
        init_body(data) == Step::Done((username, "F"@, token), rest),
    ensures
        handshake_next(Handshake::InitBody, InputView::Data(data), our_username) == quiet(
            Want::Word,
            Handshake::TransferToken,
        ),
{
}

// ---------------------------------------------------------------------------
// Search responses
// ---------------------------------------------------------------------------
/// Parsed search response with user stats. The files are (filename, size, bitrate); the
/// speed is in bytes per second.
#[derive(Debug, Clone)]
pub struct ParsedSearchResponse {
    pub username: String,
    pub token: u32,
    pub files: Vec<(String, u64, Option<u32>)>,
    pub slot_free: bool,
    pub avg_speed: u32,
    pub queue_length: u32,
}

/// A search response with its texts as character sequences.
#[verifier::ext_equal]
pub struct ParsedView {
    pub username: Seq<char>,
    pub token: u32,
    pub files: Seq<(Seq<char>, u64, Option<u32>)>,
    pub slot_free: bool,
    pub avg_speed: u32,
    pub queue_length: u32,
}

/// Listed files with their names as character sequences.
pub open spec fn listed(files: Seq<(String, u64, Option<u32>)>) -> Seq<
    (Seq<char>, u64, Option<u32>),
> {
    files.map_values(|f: (String, u64, Option<u32>)| (f.0@, f.1, f.2))
}

impl View for ParsedSearchResponse {
    type V = ParsedView;

    open spec fn view(&self) -> ParsedView {
        ParsedView {
            username: self.username@,
            token: self.token,
            files: listed(self.files@),
            slot_free: self.slot_free,
            avg_speed: self.avg_speed,
            queue_length: self.queue_length,
        }
    }
}

/// The bitrate among `n` attributes, the last one counting, and what is left after them.
/// Attributes that are cut off are not read.
pub open spec fn scan_bitrate(found: Option<u32>, b: Seq<u8>, n: nat) -> (Option<u32>, Seq<u8>)
    decreases n,
{
    if n == 0 || b.len() < 8 {
        (found, b)
    } else {
        let next = if u32_value(b) == 0 {
            Some(u32_value(b.skip(4)))
        } else {
            found
        };
        scan_bitrate(next, b.skip(4).skip(4), (n - 1) as nat)
    }
}

/// Up to `n` listed files after those already read. The list ends early where an entry is
/// cut off before its size or its attributes; a name that cannot be read is refused.
pub open spec fn scan_files(
    read: Seq<(Seq<char>, u64, Option<u32>)>,
    b: Seq<u8>,
    n: nat,
) -> Step<Seq<(Seq<char>, u64, Option<u32>)>>
    decreases n,
{
    if n == 0 || b.len() < 1 {
        Step::Done(read, b)
    } else {
        match step_string(b.skip(1)) {
            Step::Failed(e, rest) => Step::Failed(e, rest),
            Step::Short => Step::Short,
            Step::Done(filename, named) => if named.len() < 8 {
                Step::Done(read, named)
            } else {
                match step_string(named.skip(8)) {
                    Step::Failed(e, rest) => Step::Failed(e, rest),
                    Step::Short => Step::Short,
                    Step::Done(extension, ended) => if ended.len() < 4 {
                        Step::Done(read, ended)
                    } else {
                        let (bitrate, rest) = scan_bitrate(
                            None,
                            ended.skip(4),
                            u32_value(ended) as nat,
                        );
                        scan_files(
                            read.push((filename, u64_value(named), bitrate)),
                            rest,
                            (n - 1) as nat,
                        )
                    },
                }
            },
        }
    }
}

/// The statistics after the list of files; what is missing counts as a free slot, no
/// speed and no queue.
pub open spec fn scan_stats(b: Seq<u8>) -> (bool, u32, u32) {
    let slot_free = b.len() < 1 || b[0] != 0;
    let after = if b.len() >= 1 {
        b.skip(1)
    } else {
        b
    };
    let avg_speed = if after.len() >= 4 {
        u32_value(after)
    } else {
        0
    };
    let last = if after.len() >= 4 {
        after.skip(4)
    } else {
        after
    };
    let queue_length = if last.len() >= 4 {
        u32_value(last)
    } else {
        0
    };
    (slot_free, avg_speed, queue_length)
}

/// The number of files of a search response that are read at most.
pub const MAX_LISTED_FILES: u32 = 100;

/// A search response: username, token, up to 100 files, statistics.
pub open spec fn search_response(b: Seq<u8>) -> Step<ParsedView> {
    if b.len() < 8 {
        Step::Failed(WireError::NotEnoughData, b)
    } else {
        bind(
            step_string(b),
            |username: Seq<char>, b: Seq<u8>|
                bind(
                    step_u32(b),
                    |token: u32, b: Seq<u8>|
                        bind(
                            step_u32(b),
                            |count: u32, b: Seq<u8>|
                                bind(
                                    scan_files(
                                        Seq::empty(),
                                        b,
                                        if count < MAX_LISTED_FILES {
                                            count as nat
                                        } else {
                                            MAX_LISTED_FILES as nat
                                        },
                                    ),
                                    |files: Seq<(Seq<char>, u64, Option<u32>)>, b: Seq<u8>|
                                        {
                                            let (slot_free, avg_speed, queue_length) = scan_stats(
                                                b,
                                            );
                                            Step::Done(
                                                ParsedView {
                                                    username,
                                                    token,
                                                    files,
                                                    slot_free,
                                                    avg_speed,
                                                    queue_length,
                                                },
                                                Seq::empty(),
                                            )
                                        },
                                ),
                        ),
                ),
        )
    }
}

/// Reads the attributes of a listed file.
fn read_bitrate(buf: &mut BytesMut, n: u32) -> (bitrate: Option<u32>)
    ensures
        (bitrate, contents(*final(buf))) == scan_bitrate(None, contents(*old(buf)), n as nat),
{
    let mut bitrate: Option<u32> = None;
    let mut i: u32 = 0;
    let ghost goal = scan_bitrate(None, contents(*buf), n as nat);
    while i < n
        invariant_except_break
            i <= n,
            scan_bitrate(bitrate, contents(*buf), (n - i) as nat) == goal,
        ensures
            (bitrate, contents(*buf)) == goal,
        decreases n - i,
    {
        if remaining(buf) < 8 {
            break;
        }
        match (read_u32(buf), read_u32(buf)) {
            (Ok(kind), Ok(value)) => {
                if kind == 0 {
                    bitrate = Some(value);
                }
            },
            _ => {},
        }
        i = i + 1;
    }
    bitrate
}

/// Reads the list of files of a search response.
fn read_listed_files(buf: &mut BytesMut, n: u32) -> (r: Result<
    Vec<(String, u64, Option<u32>)>,
    Halt,
>)
    ensures
        match r {
            Ok(v) => scan_files(Seq::empty(), contents(*old(buf)), n as nat) == Step::Done(
                listed(v@),
                contents(*final(buf)),
            ),
            Err(Halt::Failed(e)) => scan_files(Seq::empty(), contents(*old(buf)), n as nat)
                == Step::<Seq<(Seq<char>, u64, Option<u32>)>>::Failed(e, contents(*final(buf))),
            Err(Halt::Short) => scan_files(Seq::empty(), contents(*old(buf)), n as nat) is Short,
        },
{
    let mut files: Vec<(String, u64, Option<u32>)> = Vec::new();
    let mut i: u32 = 0;
    let ghost goal = scan_files(Seq::empty(), contents(*buf), n as nat);
    assert(listed(files@) =~= Seq::<(Seq<char>, u64, Option<u32>)>::empty());
    while i < n
        invariant_except_break
            i <= n,
            scan_files(listed(files@), contents(*buf), (n - i) as nat) == goal,
        invariant
            goal == scan_files(Seq::empty(), contents(*old(buf)), n as nat),
        ensures
            goal == Step::Done(listed(files@), contents(*buf)),
        decreases n - i,
    {
        if remaining(buf) < 1 {
            break;
        }
        let ghost before = files@;
        let _code: u8 = read_u8(buf)?;
        let filename = read_string(buf)?;
        if remaining(buf) < 8 {
            break;
        }
        let size: u64 = read_u64(buf)?;
        let _extension = read_string(buf)?;
        if remaining(buf) < 4 {
            break;
        }
        let attr_count: u32 = read_u32(buf)?;
        let bitrate = read_bitrate(buf, attr_count);
        files.push((filename, size, bitrate));
        assert(listed(files@) =~= listed(before).push((filename@, size, bitrate)));
        i = i + 1;
    }
    Ok(files)
}

/// Parse a decompressed FileSearchResponse, and say so where a field of fixed size reaches
/// past the end of it.
pub fn try_parse_file_search_response(data: &[u8]) -> (r: Result<ParsedSearchResponse, Halt>)
    ensures
        viewed(r) == outcome(search_response(data@)),
        r matches Ok(p) ==> (outcome(search_response(data@)) matches Ok(v) && p.username@
            == v.username && p.token == v.token && p.slot_free == v.slot_free && p.avg_speed
            == v.avg_speed && p.queue_length == v.queue_length && p.files@.len() == v.files.len()),
{
    let mut buf = buffer_of(data);
    if remaining(&buf) < 8 {
        return Err(Halt::Failed(WireError::NotEnoughData));
    }
    let username = read_string(&mut buf)?;
    let token: u32 = read_u32(&mut buf)?;
    let file_count: u32 = read_u32(&mut buf)?;
    let limit: u32 = if file_count < MAX_LISTED_FILES {
        file_count
    } else {
        MAX_LISTED_FILES
    };
    let files = read_listed_files(&mut buf, limit)?;
    let slot_free: bool = if remaining(&buf) >= 1 {
        read_u8(&mut buf)? != 0
    } else {
        true
    };
    let avg_speed: u32 = if remaining(&buf) >= 4 {
        read_u32(&mut buf)?
    } else {
        0
    };
    let queue_length: u32 = if remaining(&buf) >= 4 {
        read_u32(&mut buf)?
    } else {
        0
    };
    Ok(ParsedSearchResponse { username, token, files, slot_free, avg_speed, queue_length })
}

/// Parse a decompressed FileSearchResponse. A response in which a field of fixed size
/// reaches past the end is not to be given.
pub fn parse_file_search_response(data: &[u8]) -> (r: Result<ParsedSearchResponse, WireError>)
    requires
        !(search_response(data@) is Short),
    ensures
        match r {
            Ok(response) => outcome(search_response(data@)) == Ok::<ParsedView, Halt>(response@),
            Err(e) => outcome(search_response(data@)) == Err::<ParsedView, Halt>(Halt::Failed(e)),
        },
{
    match try_parse_file_search_response(data) {
        Ok(response) => Ok(response),
        Err(Halt::Failed(e)) => Err(e),
        Err(Halt::Short) => Err(WireError::NotEnoughData),
    }
}

/// A search response lists at most 100 files.
pub proof fn law_few_files_are_listed(b: Seq<u8>)
    ensures
        outcome(search_response(b)) matches Ok(v) ==> v.files.len() <= MAX_LISTED_FILES,
{
    if b.len() >= 8 {
        if let Step::Done(username, b1) = step_string(b) {
            if b1.len() >= 8 {
                let count = u32_value(b1.skip(4));
                lemma_scan_is_bounded(
                    Seq::empty(),
                    b1.skip(4).skip(4),
                    if count < MAX_LISTED_FILES {
                        count as nat
                    } else {
                        MAX_LISTED_FILES as nat
                    },
                );
            }
        }
    }
}

/// Reading `n` files adds at most `n`.
proof fn lemma_scan_is_bounded(read: Seq<(Seq<char>, u64, Option<u32>)>, b: Seq<u8>, n: nat)
    ensures
        scan_files(read, b, n) matches Step::Done(files, rest) ==> files.len() <= read.len() + n,
    decreases n,
{
    if n > 0 && b.len() >= 1 {
        if let Step::Done(filename, named) = step_string(b.skip(1)) {
            if named.len() >= 8 {
                if let Step::Done(extension, ended) = step_string(named.skip(8)) {
                    if ended.len() >= 4 {
                        let (bitrate, rest) = scan_bitrate(
                            None,
                            ended.skip(4),
                            u32_value(ended) as nat,
                        );
                        lemma_scan_is_bounded(
                            read.push((filename, u64_value(named), bitrate)),
                            rest,
                            (n - 1) as nat,
                        );
                    }
                }
            }
        }
    }
}

/// What `flate2`'s zlib decoder makes of a stream, or `None` where it reports an error.
pub uninterp spec fn inflated(data: Seq<u8>) -> Option<Seq<u8>>;

/// `flate2::read::ZlibDecoder`, read to its end: the decompressed bytes, or `None` where
/// reading reports an error.
#[verifier::external_body]
fn inflate(data: &[u8]) -> (r: Option<Vec<u8>>)
    ensures
        match r {
            Some(plain) => inflated(data@) == Some(plain@),
            None => inflated(data@) is None,
        },
{
    let mut plain: Vec<u8> = Vec::new();
    match flate2::read::ZlibDecoder::new(data).read_to_end(&mut plain) {
        Ok(_) => Some(plain),
        Err(_) => None,
    }
}

/// The data of a search response: decompressed, or as it came where it does not
/// decompress.
pub open spec fn unpacked(data: Seq<u8>) -> Seq<u8> {
    match inflated(data) {
        Some(plain) => plain,
        None => data,
    }
}

/// Decompresses the data of a search response, or keeps it where it does not decompress.
pub fn unpack(data: Vec<u8>) -> (r: Vec<u8>)
    ensures
        r@ == unpacked(data@),
{
    match inflate(data.as_slice()) {
        Some(plain) => plain,
        None => data,
    }
}

/// Reads a search response as it came over the wire.
pub fn read_search_response(data: Vec<u8>) -> (r: Result<ParsedSearchResponse, Halt>)
    ensures
        viewed(r) == outcome(search_response(unpacked(data@))),
{
    let plain = unpack(data);
    try_parse_file_search_response(plain.as_slice())
}

/// How far waiting for a search response has come.
#[derive(Debug, Clone, Copy, PartialEq, Eq, Structural)]
pub enum Waiting {
    /// We connected to the peer: the length of its first message is due.
    First,
    /// Of a first message in the size of a search response, the code is due.
    FirstCode { len: u32 },
    /// The data of a search response is due.
    FirstData,
    /// The data of another message is due, to be skipped.
    FirstSkip,
    /// Of a PierceFirewall, the type is due.
    PierceByte,
    /// Of a PierceFirewall, the token is due.
    PierceWord,
    /// Of a PeerInit, the type is due.
    InitByte { len: u32 },
    /// Of a PeerInit, the rest is due.
    InitData,
    /// The length of the next message is due.
    Length { attempt: u32 },
    /// The code of the next message is due.
    Code { attempt: u32, len: u32 },
    /// The data of the next message is due.
    Data { attempt: u32, code: u32 },
}

/// How many messages are read before a peer is given up.
pub const MAX_ATTEMPTS: u32 = 10;

/// The largest message of a peer, in bytes.
pub const MAX_MESSAGE: u32 = 10_000_000;

/// Why no search response came.
#[derive(Debug, Clone, Copy, PartialEq, Eq, Structural)]
pub enum ResultsError {
    /// Reading from the stream failed.
    Read,
    /// Nothing came in time.
    Timeout,
    /// The response cannot be read.
    Wire(WireError),
    /// Ten messages came, and none was a search response.
    NoResponse,
}

/// What to do next while waiting for a search response.
#[derive(Debug, Clone)]
pub enum ResultsMove {
    /// Read and go on in the given state. The read is given up after `limit` seconds,
    /// where there is a limit.
    Read { want: Want, limit: Option<u64>, state: Waiting },
    /// The response.
    Found(ParsedSearchResponse),
    /// There is none.
    Failed(ResultsError),
    /// A message is too short for what it has to hold.
    Short,
}

/// The same with texts as character sequences.
#[verifier::ext_equal]
pub enum ResultsMoveView {
    Read { want: Want, limit: Option<u64>, state: Waiting },
    Found(ParsedView),
    Failed(ResultsError),
    Short,
}

impl View for ResultsMove {
    type V = ResultsMoveView;

    open spec fn view(&self) -> ResultsMoveView {
        match *self {
            ResultsMove::Read { want, limit, state } => ResultsMoveView::Read {
                want,
                limit,
                state,
            },
            ResultsMove::Found(response) => ResultsMoveView::Found(response@),
            ResultsMove::Failed(e) => ResultsMoveView::Failed(e),
            ResultsMove::Short => ResultsMoveView::Short,
        }
    }
}

/// Fewer than ten messages were read, and lengths are those that lead to the state.
pub open spec fn waiting_ok(state: Waiting) -> bool {
    match state {
        Waiting::FirstCode { len } => 100 < len < MAX_MESSAGE,
        Waiting::InitByte { len } => init_sized(len),
        Waiting::Length { attempt } => attempt < MAX_ATTEMPTS,
        Waiting::Code { attempt, len } => attempt < MAX_ATTEMPTS && 0 < len <= MAX_MESSAGE,
        Waiting::Data { attempt, code } => attempt < MAX_ATTEMPTS,
        _ => true,
    }
}

/// Reads on without a limit.
pub open spec fn reads(want: Want, state: Waiting) -> ResultsMoveView {
    ResultsMoveView::Read { want, limit: None, state }
}

/// Waits for the next message, unless ten were read. A `patient` wait follows a connection
/// of ours and asks for each message for three seconds; another one asks for five.
pub open spec fn next_message(patient: bool, attempt: int) -> ResultsMoveView {
    if attempt < MAX_ATTEMPTS {
        ResultsMoveView::Read {
            want: Want::Word,
            limit: Some(
                if patient {
                    3
                } else {
                    5
                },
            ),
            state: Waiting::Length { attempt: attempt as u32 },
        }
    } else {
        ResultsMoveView::Failed(ResultsError::NoResponse)
    }
}

/// The response that the data of a message holds.
pub open spec fn response_found(data: Seq<u8>) -> ResultsMoveView {
    match outcome(search_response(unpacked(data))) {
        Ok(response) => ResultsMoveView::Found(response),
        Err(Halt::Failed(e)) => ResultsMoveView::Failed(ResultsError::Wire(e)),
        Err(Halt::Short) => ResultsMoveView::Short,
    }
}

/// The next move while waiting for a search response.
pub open spec fn results_next(patient: bool, state: Waiting, input: InputView) -> ResultsMoveView {
    match (state, input) {
        (Waiting::First, InputView::Word(len)) => {
            if 100 < len < MAX_MESSAGE {
                reads(Want::Word, Waiting::FirstCode { len })
            } else if len == 5 {
                reads(Want::Byte, Waiting::PierceByte)
            } else if init_sized(len) {
                reads(Want::Byte, Waiting::InitByte { len })
            } else {
                next_message(patient, 0)
            }
        },
        (Waiting::First, InputView::TimedOut) => ResultsMoveView::Failed(ResultsError::Timeout),
        (Waiting::FirstCode { len }, InputView::Word(code)) => reads(
            Want::Data((len - 4) as u32),
            if code == 9 {
                Waiting::FirstData
            } else {
                Waiting::FirstSkip
            },
        ),
        (Waiting::FirstData, InputView::Data(data)) => response_found(data),
        (Waiting::FirstSkip, InputView::Data(_)) => next_message(patient, 0),
        (Waiting::PierceByte, InputView::Byte(_)) => reads(Want::Word, Waiting::PierceWord),
        (Waiting::PierceWord, InputView::Word(_)) => next_message(patient, 0),
        (Waiting::InitByte { len }, InputView::Byte(_)) => reads(
            Want::Data((len - 1) as u32),
            Waiting::InitData,
        ),
        (Waiting::InitData, InputView::Data(_)) => next_message(patient, 0),
        (Waiting::Length { attempt }, InputView::Word(len)) => {
            if len == 0 || len > MAX_MESSAGE {
                next_message(patient, attempt + 1)
            } else {
                reads(Want::Word, Waiting::Code { attempt, len })
            }
        },
        (Waiting::Length { attempt }, InputView::TimedOut) => {
            if patient && attempt < 9 {
                next_message(patient, attempt + 1)
            } else {
                ResultsMoveView::Failed(ResultsError::Timeout)
            }
        },
        (Waiting::Code { attempt, len }, InputView::Word(code)) => {
            if len < 4 {
                ResultsMoveView::Short
            } else {
                reads(Want::Data((len - 4) as u32), Waiting::Data { attempt, code })
            }
        },
        (Waiting::Data { attempt, code }, InputView::Data(data)) => {
            if code == 9 {
                response_found(data)
            } else {
                next_message(patient, attempt + 1)
            }
        },
        _ => ResultsMoveView::Failed(ResultsError::Read),
    }
}

/// Reads on without a limit.
fn go_on(want: Want, state: Waiting) -> (m: ResultsMove)
    ensures
        m@ == reads(want, state),
        m == (ResultsMove::Read { want, limit: None, state }),
{
    ResultsMove::Read { want, limit: None, state }
}

/// Waits for the next message, unless ten were read.
fn wait_for_message(patient: bool, attempt: u32) -> (m: ResultsMove)
    ensures
        m@ == next_message(patient, attempt as int),
        m matches ResultsMove::Read { want, limit, state } ==> waiting_ok(state),
{
    if attempt < MAX_ATTEMPTS {
        let limit: u64 = if patient {
            3
        } else {
            5
        };
        ResultsMove::Read {
            want: Want::Word,
            limit: Some(limit),
            state: Waiting::Length { attempt },
        }
    } else {
        ResultsMove::Failed(ResultsError::NoResponse)
    }
}

/// Reads the response that the data of a message holds.
fn found(data: Vec<u8>) -> (m: ResultsMove)
    ensures
        m@ == response_found(data@),
        !(m is Read),
{
    match read_search_response(data) {
        Ok(response) => ResultsMove::Found(response),
        Err(Halt::Failed(e)) => ResultsMove::Failed(ResultsError::Wire(e)),
        Err(Halt::Short) => ResultsMove::Short,
    }
}

/// Starts to wait for the response of a peer that we connected to.
pub fn connected_for_results() -> (m: ResultsMove)
    ensures
        m@ == (ResultsMoveView::Read { want: Want::Word, limit: Some(5), state: Waiting::First }),
{
    ResultsMove::Read { want: Want::Word, limit: Some(5), state: Waiting::First }
}

/// Starts to wait for the response of a peer that connected to us.
pub fn receive_results() -> (m: ResultsMove)
    ensures
        m@ == next_message(false, 0),
{
    wait_for_message(false, 0)
}

/// Decides the next move from what was read.
pub fn results_step(patient: bool, state: Waiting, input: Input) -> (m: ResultsMove)
    requires
        waiting_ok(state),
    ensures
        m@ == results_next(patient, state, input@),
        m matches ResultsMove::Read { want, limit, state } ==> waiting_ok(state),
{
    match (state, input) {
        (Waiting::First, Input::Word(len)) => {
            if len > 100 && len < MAX_MESSAGE {
                go_on(Want::Word, Waiting::FirstCode { len })
            } else if len == 5 {
                go_on(Want::Byte, Waiting::PierceByte)
            } else if len > 5 && len < 200 {
                go_on(Want::Byte, Waiting::InitByte { len })
            } else {
                wait_for_message(patient, 0)
            }
        },
        (Waiting::First, Input::TimedOut) => ResultsMove::Failed(ResultsError::Timeout),
        (Waiting::FirstCode { len }, Input::Word(code)) => {
            if code == 9 {
                go_on(Want::Data(len - 4), Waiting::FirstData)
            } else {
                go_on(Want::Data(len - 4), Waiting::FirstSkip)
            }
        },
        (Waiting::FirstData, Input::Data(data)) => found(data),
        (Waiting::FirstSkip, Input::Data(_)) => wait_for_message(patient, 0),
        (Waiting::PierceByte, Input::Byte(_)) => go_on(Want::Word, Waiting::PierceWord),
        (Waiting::PierceWord, Input::Word(_)) => wait_for_message(patient, 0),
        (Waiting::InitByte { len }, Input::Byte(_)) => go_on(
            Want::Data(len - 1),
            Waiting::InitData,
        ),
        (Waiting::InitData, Input::Data(_)) => wait_for_message(patient, 0),
        (Waiting::Length { attempt }, Input::Word(len)) => {
            if len == 0 || len > MAX_MESSAGE {
                wait_for_message(patient, attempt + 1)
            } else {
                go_on(Want::Word, Waiting::Code { attempt, len })
            }
        },
        (Waiting::Length { attempt }, Input::TimedOut) => {
            if patient && attempt < 9 {
                wait_for_message(patient, attempt + 1)
            } else {
                ResultsMove::Failed(ResultsError::Timeout)
            }
        },
        (Waiting::Code { attempt, len }, Input::Word(code)) => {
            if len < 4 {
                ResultsMove::Short
            } else {
                go_on(Want::Data(len - 4), Waiting::Data { attempt, code })
            }
        },
        (Waiting::Data { attempt, code }, Input::Data(data)) => {
            if code == 9 {
                found(data)
            } else {
                wait_for_message(patient, attempt + 1)
            }
        },
        _ => ResultsMove::Failed(ResultsError::Read),
    }
}

/// How many messages a wait has gone through before it reads again.
pub open spec fn progress(state: Waiting) -> int {
    match state {
        Waiting::First => 0,
        Waiting::FirstCode { .. } => 1,
        Waiting::FirstData => 2,
        Waiting::FirstSkip => 2,
        Waiting::PierceByte => 1,
        Waiting::PierceWord => 2,
        Waiting::InitByte { .. } => 1,
        Waiting::InitData => 2,
        Waiting::Length { attempt } => 3 + 3 * attempt as int,
        Waiting::Code { attempt, .. } => 4 + 3 * attempt as int,
        Waiting::Data { attempt, .. } => 5 + 3 * attempt as int,
    }
}

/// Waiting for a search response ends: every read brings it further, and after ten
/// messages there is nothing to read any more.
pub proof fn law_waiting_for_results_ends(patient: bool, state: Waiting, input: InputView)
    requires
        waiting_ok(state),
    ensures
        results_next(patient, state, input) matches ResultsMoveView::Read { want, limit, state: next }
            ==> waiting_ok(next) && progress(state) < progress(next) < 33,
{
}

// ---------------------------------------------------------------------------
// Transfer negotiation
// ---------------------------------------------------------------------------
/// Result of download negotiation with a peer
#[derive(Debug, Clone)]
pub enum NegotiationResult {
    /// Transfer allowed - ready for F connection
    Allowed { filesize: u64, transfer_token: u32 },
    /// Transfer queued - peer will initiate F connection when ready
    Queued { transfer_token: u32, position: Option<u32>, reason: String },
    /// Transfer denied
    Denied { reason: String },
}

/// A negotiation result with its texts as character sequences.
#[verifier::ext_equal]
pub enum NegotiationView {
    Allowed { filesize: u64, transfer_token: u32 },
    Queued { transfer_token: u32, position: Option<u32>, reason: Seq<char> },
    Denied { reason: Seq<char> },
}

impl View for NegotiationResult {
    type V = NegotiationView;

    open spec fn view(&self) -> NegotiationView {
        match *self {
            NegotiationResult::Allowed { filesize, transfer_token } => NegotiationView::Allowed {
                filesize,
                transfer_token,
            },
            NegotiationResult::Queued { transfer_token, position, reason } => {
                NegotiationView::Queued { transfer_token, position, reason: reason@ }
            },
            NegotiationResult::Denied { reason } => NegotiationView::Denied { reason: reason@ },
        }
    }
}

/// What a message of a peer means to a download that waits for its turn.
#[derive(Debug, Clone)]
pub enum TransferMove {
    /// Nothing yet: wait for the next message.
    Wait,
    /// The peer is ready: send the message, and the transfer is allowed.
    Accept { send: Vec<u8>, filesize: u64, transfer_token: u32 },
    /// The peer will not send the file.
    Denied { reason: String },
    /// The message cannot be read.
    Failed(WireError),
    /// A field of fixed size reaches past the end of the message.
    Short,
}

/// The same with texts as character sequences.
#[verifier::ext_equal]
pub enum TransferMoveView {
    Wait,
    Accept { send: Seq<u8>, filesize: u64, transfer_token: u32 },
    Denied { reason: Seq<char> },
    Failed(WireError),
    Short,
}

impl View for TransferMove {
    type V = TransferMoveView;

    open spec fn view(&self) -> TransferMoveView {
        match *self {
            TransferMove::Wait => TransferMoveView::Wait,
            TransferMove::Accept { send, filesize, transfer_token } => TransferMoveView::Accept {
                send: send@,
                filesize,
                transfer_token,
            },
            TransferMove::Denied { reason } => TransferMoveView::Denied { reason: reason@ },
            TransferMove::Failed(e) => TransferMoveView::Failed(e),
            TransferMove::Short => TransferMoveView::Short,
        }
    }
}

/// A request to transfer: an upload (direction 1) is accepted, any other passed over.
pub open spec fn transfer_request(b: Seq<u8>) -> Step<TransferMoveView> {
    bind(
        step_u32(b),
        |direction: u32, b: Seq<u8>|
            bind(
                step_u32(b),
                |transfer_token: u32, b: Seq<u8>|
                    bind(
                        step_string(b),
                        |filename: Seq<char>, b: Seq<u8>|
                            if direction != 1 {
                                Step::Done(TransferMoveView::Wait, b)
                            } else {
                                bind(
                                    step_u64(b),
                                    |filesize: u64, b: Seq<u8>|
                                        Step::Done(
                                            TransferMoveView::Accept {
                                                send: frame(41, u32_bytes(transfer_token).push(1)),
                                                filesize,
                                                transfer_token,
                                            },
                                            b,
                                        ),
                                )
                            },
                    ),
            ),
    )
}

/// A place in the queue: the name of the file and the place.
pub open spec fn queue_place(b: Seq<u8>) -> Step<u32> {
    bind(
        step_string(b),
        |filename: Seq<char>, b: Seq<u8>|
            bind(step_u32(b), |place: u32, b: Seq<u8>| Step::Done(place, b)),
    )
}

/// A denial: the name of the file and the reason.
pub open spec fn denial(b: Seq<u8>) -> Step<Seq<char>> {
    bind(step_string(b), |filename: Seq<char>, b: Seq<u8>| step_string(b))
}

/// What a message means, from the steps that read it.
pub open spec fn transfer_outcome(step: Step<TransferMoveView>) -> TransferMoveView {
    match step {
        Step::Done(m, rest) => m,
        Step::Failed(e, rest) => TransferMoveView::Failed(e),
        Step::Short => TransferMoveView::Short,
    }
}

/// What a message of a peer means to a download that waits for its turn.
pub open spec fn transfer_next(code: u32, data: Seq<u8>) -> TransferMoveView {
    if code == 40 {
        transfer_outcome(transfer_request(data))
    } else if code == 44 {
        transfer_outcome(
            bind(queue_place(data), |p: u32, b: Seq<u8>| Step::Done(TransferMoveView::Wait, b)),
        )
    } else if code == 50 {
        transfer_outcome(
            bind(
                denial(data),
                |reason: Seq<char>, b: Seq<u8>|
                    Step::Done(TransferMoveView::Denied { reason }, b),
            ),
        )
    } else if code == 46 {
        transfer_outcome(
            bind(
                step_string(data),
                |filename: Seq<char>, b: Seq<u8>|
                    Step::Done(TransferMoveView::Denied { reason: "Upload failed"@ }, b),
            ),
        )
    } else {
        TransferMoveView::Wait
    }
}

/// What reading came to, as a move.
fn stopped(h: Halt) -> (m: TransferMove)
    ensures
        m@ == match h {
            Halt::Failed(e) => TransferMoveView::Failed(e),
            Halt::Short => TransferMoveView::Short,
        },
{
    match h {
        Halt::Failed(e) => TransferMove::Failed(e),
        Halt::Short => TransferMove::Short,
    }
}

/// Reads a request to transfer.
fn read_transfer_request(data: &[u8]) -> (r: Result<TransferMove, Halt>)
    ensures
        viewed(r) == outcome(transfer_request(data@)),
{
    let mut buf = buffer_of(data);
    let direction: u32 = read_u32(&mut buf)?;
    let transfer_token: u32 = read_u32(&mut buf)?;
    let _filename = read_string(&mut buf)?;
    if direction != 1 {
        return Ok(TransferMove::Wait);
    }
    let filesize: u64 = read_u64(&mut buf)?;
    Ok(
        TransferMove::Accept {
            send: transfer_allowed_message(transfer_token),
            filesize,
            transfer_token,
        },
    )
}

/// Reads a place in the queue.
fn read_queue_place(data: &[u8]) -> (r: Result<u32, Halt>)
    ensures
        r == outcome(queue_place(data@)),
{
    let mut buf = buffer_of(data);
    let _filename = read_string(&mut buf)?;
    let place: u32 = read_u32(&mut buf)?;
    Ok(place)
}

/// Reads the reason of a denial.
fn read_denial(data: &[u8]) -> (r: Result<String, Halt>)
    ensures
        viewed(r) == outcome(denial(data@)),
{
    let mut buf = buffer_of(data);
    let _filename = read_string(&mut buf)?;
    let reason = read_string(&mut buf)?;
    Ok(reason)
}

/// Decides what a message of a peer means to a download that waits for its turn.
pub fn transfer_step(code: u32, data: &[u8]) -> (m: TransferMove)
    ensures
        m@ == transfer_next(code, data@),
{
    if code == 40 {
        match read_transfer_request(data) {
            Ok(m) => m,
            Err(h) => stopped(h),
        }
    } else if code == 44 {
        match read_queue_place(data) {
            Ok(_) => TransferMove::Wait,
            Err(h) => stopped(h),
        }
    } else if code == 50 {
        match read_denial(data) {
            Ok(reason) => TransferMove::Denied { reason },
            Err(h) => stopped(h),
        }
    } else if code == 46 {
        let mut buf = buffer_of(data);
        match read_string(&mut buf) {
            Ok(_) => TransferMove::Denied { reason: "Upload failed".to_owned() },
            Err(h) => stopped(h),
        }
    } else {
        TransferMove::Wait
    }
}

/// Why a direct negotiation failed.
#[derive(Debug, Clone, Copy, PartialEq, Eq, Structural)]
pub enum NegotiationError {
    /// The answer cannot be read.
    Wire(WireError),
    /// The answer has a code that does not belong here.
    UnexpectedCode(u32),
    /// A field of fixed size reaches past the end of the answer.
    Short,
    /// The stream ended or timed out where something was due.
    NothingRead,
}

/// What an answer other than a TransferReply makes of a request with a token.
pub open spec fn negotiation_answer(transfer_token: u32, code: u32, data: Seq<u8>) -> Result<
    NegotiationView,
    NegotiationError,
> {
    if code == 44 {
        match queue_place(data) {
            Step::Done(place, rest) => Ok(
                NegotiationView::Queued {
                    transfer_token,
                    position: Some(place),
                    reason: "Position "@ + crate::text::decimal(place as nat),
                },
            ),
            Step::Failed(e, rest) => Err(NegotiationError::Wire(e)),
            Step::Short => Err(NegotiationError::Short),
        }
    } else if code == 50 {
        match denial(data) {
            Step::Done(reason, rest) => Ok(NegotiationView::Denied { reason }),
            Step::Failed(e, rest) => Err(NegotiationError::Wire(e)),
            Step::Short => Err(NegotiationError::Short),
        }
    } else {
        Err(NegotiationError::UnexpectedCode(code))
    }
}

/// What the reason in a TransferReply that does not allow the transfer makes of the
/// request: a reason that speaks of a queue means that the transfer is queued.
pub open spec fn refused_transfer(transfer_token: u32, data: Seq<u8>) -> Result<
    NegotiationView,
    NegotiationError,
> {
    match step_string(data) {
        Step::Done(reason, rest) => {
            if occurs(lowercase(reason), "queued"@) || occurs(lowercase(reason), "queue"@) {
                Ok(NegotiationView::Queued { transfer_token, position: None, reason })
            } else {
                Ok(NegotiationView::Denied { reason })
            }
        },
        Step::Failed(e, rest) => Err(NegotiationError::Wire(e)),
        Step::Short => Err(NegotiationError::Short),
    }
}

/// Reads an answer other than a TransferReply.
pub fn read_negotiation_answer(transfer_token: u32, code: u32, data: &[u8]) -> (r: Result<
    NegotiationResult,
    NegotiationError,
>)
    ensures
        viewed(r) == negotiation_answer(transfer_token, code, data@),
{
    if code == 44 {
        match read_queue_place(data) {
            Ok(place) => {
                let mut reason = "Position ".to_owned();
                push_decimal(&mut reason, place as u64);
                Ok(NegotiationResult::Queued { transfer_token, position: Some(place), reason })
            },
            Err(Halt::Failed(e)) => Err(NegotiationError::Wire(e)),
            Err(Halt::Short) => Err(NegotiationError::Short),
        }
    } else if code == 50 {
        match read_denial(data) {
            Ok(reason) => Ok(NegotiationResult::Denied { reason }),
            Err(Halt::Failed(e)) => Err(NegotiationError::Wire(e)),
            Err(Halt::Short) => Err(NegotiationError::Short),
        }
    } else {
        Err(NegotiationError::UnexpectedCode(code))
    }
}

/// Reads the reason of a TransferReply that does not allow the transfer.
pub fn read_refused_transfer(transfer_token: u32, data: &[u8]) -> (r: Result<
    NegotiationResult,
    NegotiationError,
>)
    ensures
        viewed(r) == refused_transfer(transfer_token, data@),
{
    let mut buf = buffer_of(data);
    match read_string(&mut buf) {
        Ok(reason) => {
            let lower = to_lowercase(reason.as_str());
            if contains(lower.as_str(), "queued") || contains(lower.as_str(), "queue") {
                Ok(NegotiationResult::Queued { transfer_token, position: None, reason })
            } else {
                Ok(NegotiationResult::Denied { reason })
            }
        },
        Err(Halt::Failed(e)) => Err(NegotiationError::Wire(e)),
        Err(Halt::Short) => Err(NegotiationError::Short),
    }
}

/// How far a direct negotiation has come.
#[derive(Debug, Clone, Copy, PartialEq, Eq, Structural)]
pub enum Negotiating {
    /// The request was sent: the length of the answer is due.
    Length,
    /// The code of the answer is due.
    Code { len: u32 },
    /// The data of an answer other than a TransferReply is due.
    Answer { code: u32 },
    /// Of a TransferReply of `len` bytes, the token is due.
    ReplyToken { len: u32 },
    /// Of a TransferReply of `len` bytes, the answer is due.
    ReplyAllowed { len: u32 },
    /// The transfer is allowed: the size of the file is due.
    Size,
    /// The transfer is not allowed: the reason is due.
    Reason,
}

/// What to do next in a direct negotiation.
#[derive(Debug, Clone)]
pub enum NegotiationMove {
    /// Read and go on in the given state.
    Read { want: Want, state: Negotiating },
    /// The negotiation is over.
    Done(NegotiationResult),
    /// The negotiation failed.
    Failed(NegotiationError),
}

/// The same with texts as character sequences.
#[verifier::ext_equal]
pub enum NegotiationMoveView {
    Read { want: Want, state: Negotiating },
    Done(NegotiationView),
    Failed(NegotiationError),
}

impl View for NegotiationMove {
    type V = NegotiationMoveView;

    open spec fn view(&self) -> NegotiationMoveView {
        match *self {
            NegotiationMove::Read { want, state } => NegotiationMoveView::Read { want, state },
            NegotiationMove::Done(result) => NegotiationMoveView::Done(result@),
            NegotiationMove::Failed(e) => NegotiationMoveView::Failed(e),
        }
    }
}

/// The end of a negotiation with an answer.
pub open spec fn concluded(r: Result<NegotiationView, NegotiationError>) -> NegotiationMoveView {
    match r {
        Ok(result) => NegotiationMoveView::Done(result),
        Err(e) => NegotiationMoveView::Failed(e),
    }
}

/// The next move of a direct negotiation under a token.
pub open spec fn negotiation_next(
    transfer_token: u32,
    state: Negotiating,
    input: InputView,
) -> NegotiationMoveView {
    match (state, input) {
        (Negotiating::Length, InputView::Word(len)) => NegotiationMoveView::Read {
            want: Want::Word,
            state: Negotiating::Code { len },
        },
        (Negotiating::Code { len }, InputView::Word(code)) => {
            if code == 41 {
                NegotiationMoveView::Read {
                    want: Want::Word,
                    state: Negotiating::ReplyToken { len },
                }
            } else if len < 4 {
                NegotiationMoveView::Failed(NegotiationError::Short)
            } else {
                NegotiationMoveView::Read {
                    want: Want::Data((len - 4) as u32),
                    state: Negotiating::Answer { code },
                }
            }
        },
        (Negotiating::Answer { code }, InputView::Data(data)) => concluded(
            negotiation_answer(transfer_token, code, data),
        ),
        (Negotiating::ReplyToken { len }, InputView::Word(_)) => NegotiationMoveView::Read {
            want: Want::Byte,
            state: Negotiating::ReplyAllowed { len },
        },
        (Negotiating::ReplyAllowed { len }, InputView::Byte(allowed)) => {
            if allowed == 1 {
                NegotiationMoveView::Read { want: Want::Data(8), state: Negotiating::Size }
            } else if len < 9 {
                NegotiationMoveView::Failed(NegotiationError::Short)
            } else {
                NegotiationMoveView::Read {
                    want: Want::Data((len - 9) as u32),
                    state: Negotiating::Reason,
                }
            }
        },
        (Negotiating::Size, InputView::Data(data)) => match step_u64(data) {
            Step::Done(filesize, rest) => NegotiationMoveView::Done(
                NegotiationView::Allowed { filesize, transfer_token },
            ),
            _ => NegotiationMoveView::Failed(NegotiationError::Short),
        },
        (Negotiating::Reason, InputView::Data(data)) => concluded(
            refused_transfer(transfer_token, data),
        ),
        _ => NegotiationMoveView::Failed(NegotiationError::NothingRead),
    }
}

/// Ends a negotiation with an answer.
fn conclude(r: Result<NegotiationResult, NegotiationError>) -> (m: NegotiationMove)
    ensures
        m@ == concluded(viewed(r)),
{
    match r {
        Ok(result) => NegotiationMove::Done(result),
        Err(e) => NegotiationMove::Failed(e),
    }
}

/// Decides the next move of a direct negotiation from what was read. The request with the
/// token was sent before the first one.
pub fn negotiation_step(transfer_token: u32, state: Negotiating, input: Input) -> (m:
    NegotiationMove)
    ensures
        m@ == negotiation_next(transfer_token, state, input@),
{
    match (state, input) {
        (Negotiating::Length, Input::Word(len)) => NegotiationMove::Read {
            want: Want::Word,
            state: Negotiating::Code { len },
        },
        (Negotiating::Code { len }, Input::Word(code)) => {
            if code == 41 {
                NegotiationMove::Read { want: Want::Word, state: Negotiating::ReplyToken { len } }
            } else if len < 4 {
                NegotiationMove::Failed(NegotiationError::Short)
            } else {
                NegotiationMove::Read {
                    want: Want::Data(len - 4),
                    state: Negotiating::Answer { code },
                }
            }
        },
        (Negotiating::Answer { code }, Input::Data(data)) => conclude(
            read_negotiation_answer(transfer_token, code, data.as_slice()),
        ),
        (Negotiating::ReplyToken { len }, Input::Word(_)) => NegotiationMove::Read {
            want: Want::Byte,
            state: Negotiating::ReplyAllowed { len },
        },
        (Negotiating::ReplyAllowed { len }, Input::Byte(allowed)) => {
            if allowed == 1 {
                NegotiationMove::Read { want: Want::Data(8), state: Negotiating::Size }
            } else if len < 9 {
                NegotiationMove::Failed(NegotiationError::Short)
            } else {
                NegotiationMove::Read {
                    want: Want::Data(len - 9),
                    state: Negotiating::Reason,
                }
            }
        },
        (Negotiating::Size, Input::Data(data)) => {
            let mut buf = buffer_of(data.as_slice());
            match read_u64(&mut buf) {
                Ok(filesize) => NegotiationMove::Done(
                    NegotiationResult::Allowed { filesize, transfer_token },
                ),
                Err(_) => NegotiationMove::Failed(NegotiationError::Short),
            }
        },
        (Negotiating::Reason, Input::Data(data)) => conclude(
            read_refused_transfer(transfer_token, data.as_slice()),
        ),
        _ => NegotiationMove::Failed(NegotiationError::NothingRead),
    }
}

/// A negotiation that allows or queues a transfer does so under the token of its request.
pub proof fn law_negotiation_keeps_its_token(
    transfer_token: u32,
    state: Negotiating,
    input: InputView,
)
    ensures
        negotiation_next(transfer_token, state, input) matches NegotiationMoveView::Done(result)
            ==> match result {
            NegotiationView::Allowed { filesize, transfer_token: token } => token
                == transfer_token,
            NegotiationView::Queued { transfer_token: token, position, reason } => token
                == transfer_token,
            NegotiationView::Denied { reason } => true,
        },
{
}

/// A peer that asks to upload with a token is answered with the same token, and the
/// transfer is allowed under it.
pub proof fn law_accepted_token_is_answered(code: u32, data: Seq<u8>)
    ensures
        transfer_next(code, data) matches TransferMoveView::Accept {
            send,
            filesize,
            transfer_token,
        } ==> {
            &&& code == 40
            &&& send == frame(41, u32_bytes(transfer_token).push(1))
            &&& u32_value(data) == 1
            &&& u32_value(data.skip(4)) == transfer_token
        },
{
}

// ---------------------------------------------------------------------------
// File data
// ---------------------------------------------------------------------------
/// The bytes between two progress reports.
pub const REPORT_EVERY: u64 = 262_144;

/// The bytes of a read from the stream or the file.
pub const CHUNK: u64 = 65_536;

/// How far a transfer of a file has come.
#[derive(Debug, Clone, Copy, PartialEq, Eq, Structural)]
pub struct TransferMeter {
    /// Where the transfer started in the file.
    pub offset: u64,
    /// Where in the file it is now.
    pub total: u64,
    /// The size of the file.
    pub size: u64,
}

impl TransferMeter {
    /// A transfer does not go back behind its start.
    pub open spec fn well_formed(self) -> bool {
        self.offset <= self.total
    }

    /// A transfer that starts at an offset.
    pub fn start(offset: u64, size: u64) -> (m: TransferMeter)
        ensures
            m.well_formed(),
            m == (TransferMeter { offset, total: offset, size }),
    {
        TransferMeter { offset, total: offset, size }
    }

    /// Counts a chunk of `n` bytes. Says whether progress is to be reported, and whether
    /// the file is complete.
    pub fn count(&mut self, n: u64) -> (r: (bool, bool))
        requires
            old(self).well_formed(),
            old(self).total + n <= u64::MAX,
        ensures
            final(self).well_formed(),
            *final(self) == (TransferMeter { total: (old(self).total + n) as u64, ..*old(self) }),
            r.0 == reports_at(final(self).total),
            r.1 == (final(self).total >= final(self).size),
    {
        self.total = self.total + n;
        (self.total % REPORT_EVERY < CHUNK, self.total >= self.size)
    }

    /// The bytes that went over the connection.
    pub fn transferred(&self) -> (n: u64)
        requires
            self.well_formed(),
        ensures
            n == self.total - self.offset,
    {
        self.total - self.offset
    }
}

/// Progress is reported when the total has just passed a multiple of 256 KB.
pub open spec fn reports_at(total: u64) -> bool {
    total % REPORT_EVERY < CHUNK
}

/// Progress is reported every 256 KB: a chunk that brings the total to or over a multiple
/// of 256 KB is reported.
pub proof fn law_every_256k_is_reported(before: u64, n: u64, multiple: u64)
    requires
        before + n <= u64::MAX,
        0 < n <= CHUNK,
        before < multiple * REPORT_EVERY <= before + n,
    ensures
        reports_at((before + n) as u64),
{
    let total = before + n;
    let k = multiple as int;
    assert((total - k * 262_144) % 262_144 == total % 262_144) by {
        vstd::arithmetic::div_mod::lemma_mod_multiples_vanish(-k, total, 262_144);
        assert(262_144 * (-k) + total == total - k * 262_144) by (nonlinear_arith);
    }
    assert((total - k * 262_144) % 262_144 == total - k * 262_144);
}

// ---------------------------------------------------------------------------
// Waiting for a file connection
// ---------------------------------------------------------------------------
/// What a download that waits for its file connection does next.
#[derive(Debug, Clone)]
pub enum FileWait {
    /// Keep waiting.
    Wait,
    /// The connection is the one.
    Use,
    /// Connect to the uploader, and use that connection if it comes about.
    Connect { ip: String, port: u32, token: u32 },
    /// The message of the server cannot be read.
    Failed(WireError),
    /// A field of fixed size reaches past the end of the message.
    Short,
}

/// The same with texts as character sequences.
#[verifier::ext_equal]
pub enum FileWaitView {
    Wait,
    Use,
    Connect { ip: Seq<char>, port: u32, token: u32 },
    Failed(WireError),
    Short,
}

impl View for FileWait {
    type V = FileWaitView;

    open spec fn view(&self) -> FileWaitView {
        match *self {
            FileWait::Wait => FileWaitView::Wait,
            FileWait::Use => FileWaitView::Use,
            FileWait::Connect { ip, port, token } => FileWaitView::Connect {
                ip: ip@,
                port,
                token,
            },
            FileWait::Failed(e) => FileWaitView::Failed(e),
            FileWait::Short => FileWaitView::Short,
        }
    }
}

/// A connection that came in is used if it has the token of the transfer.
pub fn direct_connection(conn_token: u32, transfer_token: u32) -> (m: FileWait)
    ensures
        m@ == if conn_token == transfer_token {
            FileWaitView::Use
        } else {
            FileWaitView::Wait
        },
{
    if conn_token == transfer_token {
        FileWait::Use
    } else {
        FileWait::Wait
    }
}

/// What a message of the server means: a request to connect to our uploader for files is
/// followed, everything else is passed over.
pub open spec fn brokered(code: u32, data: Seq<u8>, peer_username: Seq<char>) -> FileWaitView {
    if code != 18 {
        FileWaitView::Wait
    } else {
        match outcome(connect_to_peer(data)) {
            Ok(msg) => if msg.conn_type == "F"@ && msg.username == peer_username {
                FileWaitView::Connect { ip: msg.ip, port: msg.port, token: msg.token }
            } else {
                FileWaitView::Wait
            },
            Err(Halt::Failed(e)) => FileWaitView::Failed(e),
            Err(Halt::Short) => FileWaitView::Short,
        }
    }
}

/// Decides what a message of the server means to a download that waits for its file
/// connection.
pub fn brokered_connection(code: u32, data: &[u8], peer_username: &str) -> (m: FileWait)
    ensures
        m@ == brokered(code, data@, peer_username@),
{
    if code != 18 {
        return FileWait::Wait;
    }
    match parse_connect_to_peer(data) {
        Ok(msg) => {
            if same_text(msg.conn_type.as_str(), "F") && same_text(
                msg.username.as_str(),
                peer_username,
            ) {
                FileWait::Connect { ip: msg.ip, port: msg.port, token: msg.token }
            } else {
                FileWait::Wait
            }
        },
        Err(Halt::Failed(e)) => FileWait::Failed(e),
        Err(Halt::Short) => FileWait::Short,
    }
}

// ---------------------------------------------------------------------------
// Laws of search responses
// ---------------------------------------------------------------------------
/// The bitrate that attributes tell, the last one counting.
pub open spec fn told_bitrate(attributes: Seq<FileAttribute>) -> Option<u32>
    decreases attributes.len(),
{
    if attributes.len() == 0 {
        None
    } else if attributes.last().attribute_type == 0 {
        Some(attributes.last().value)
    } else {
        told_bitrate(attributes.drop_last())
    }
}

/// The bitrate of a file with one attribute that tells it is that one, wherever it stands
/// among the attributes; without such an attribute there is none.
pub proof fn law_bitrate_is_the_one_told(attributes: Seq<FileAttribute>, i: int)
    ensures
        (forall|j: int|
            0 <= j < attributes.len() ==> (#[trigger] attributes[j]).attribute_type != 0)
            ==> told_bitrate(attributes) is None,
        0 <= i < attributes.len() && attributes[i].attribute_type == 0 && (forall|j: int|
            0 <= j < attributes.len() && j != i ==> (#[trigger] attributes[j]).attribute_type != 0)
            ==> told_bitrate(attributes) == Some(attributes[i].value),
    decreases attributes.len(),
{
    if attributes.len() > 0 {
        let short = attributes.drop_last();
        law_bitrate_is_the_one_told(short, i);
        assert forall|j: int| 0 <= j < short.len() implies #[trigger] short[j]
            == attributes[j] by {
        }
        assert(attributes.last() == attributes[attributes.len() - 1]);
    }
}

/// The bitrate among attributes with one more in front of them.
proof fn lemma_told_bitrate_of_first(attributes: Seq<FileAttribute>)
    requires
        attributes.len() > 0,
    ensures
        told_bitrate(attributes) == match told_bitrate(attributes.skip(1)) {
            Some(b) => Some(b),
            None => if attributes[0].attribute_type == 0 {
                Some(attributes[0].value)
            } else {
                None
            },
        },
    decreases attributes.len(),
{
    let rest = attributes.skip(1);
    if rest.len() > 0 {
        assert(rest.last() == attributes.last());
        assert(rest.drop_last() =~= attributes.drop_last().skip(1));
        lemma_told_bitrate_of_first(attributes.drop_last());
    } else {
        assert(attributes.drop_last() =~= Seq::<FileAttribute>::empty());
        assert(told_bitrate(attributes.drop_last()) is None);
        assert(told_bitrate(rest) is None);
    }
}

/// The attributes of a file are read to their end, and tell the bitrate.
proof fn lemma_bitrate_is_read(found: Option<u32>, attributes: Seq<FileAttribute>, rest: Seq<u8>)
    ensures
        scan_bitrate(found, attribute_bytes(attributes) + rest, attributes.len()) == (
            match told_bitrate(attributes) {
                Some(b) => Some(b),
                None => found,
            },
            rest,
        ),
    decreases attributes.len(),
{
    if attributes.len() == 0 {
        assert(attribute_bytes(attributes) + rest =~= rest);
    } else {
        let first = attributes[0];
        let tail = attribute_bytes(attributes.skip(1)) + rest;
        let value = u32_bytes(first.value) + tail;
        let b = attribute_bytes(attributes) + rest;
        lemma_join4(
            u32_bytes(first.attribute_type),
            u32_bytes(first.value),
            attribute_bytes(attributes.skip(1)),
            rest,
        );
        lemma_u32_round_trip(first.attribute_type, value);
        lemma_u32_round_trip(first.value, tail);
        lemma_told_bitrate_of_first(attributes);
        let next = if first.attribute_type == 0 {
            Some(first.value)
        } else {
            found
        };
        lemma_bitrate_is_read(next, attributes.skip(1), rest);
        lemma_bitrate_step(
            found,
            b,
            attributes.len(),
            first.attribute_type,
            first.value,
            tail,
        );
    }
}

/// Reading attributes goes on after the first one.
proof fn lemma_bitrate_step(
    found: Option<u32>,
    b: Seq<u8>,
    n: nat,
    kind: u32,
    value: u32,
    rest: Seq<u8>,
)
    requires
        n > 0,
        b.len() >= 8,
        u32_value(b) == kind,
        u32_value(b.skip(4)) == value,
        b.skip(4).skip(4) == rest,
    ensures
        scan_bitrate(found, b, n) == scan_bitrate(
            if kind == 0 {
                Some(value)
            } else {
                found
            },
            rest,
            (n - 1) as nat,
        ),
{
}

/// What is listed of a file: its name, its size and the bitrate that its attributes tell.
pub open spec fn listing(f: SearchFileView) -> (Seq<char>, u64, Option<u32>) {
    (f.filename, f.size, told_bitrate(f.attributes))
}

/// Reading a list of files goes on after the first one.
proof fn lemma_listing_step(
    read: Seq<(Seq<char>, u64, Option<u32>)>,
    b: Seq<u8>,
    n: nat,
    filename: Seq<char>,
    named: Seq<u8>,
    size: u64,
    extension: Seq<char>,
    ended: Seq<u8>,
    count: nat,
    bitrate: Option<u32>,
    rest: Seq<u8>,
)
    requires
        n > 0,
        b.len() >= 1,
        step_string(b.skip(1)) == Step::Done(filename, named),
        named.len() >= 8,
        u64_value(named) == size,
        step_string(named.skip(8)) == Step::Done(extension, ended),
        ended.len() >= 4,
        u32_value(ended) == count,
        scan_bitrate(None, ended.skip(4), count) == (bitrate, rest),
    ensures
        scan_files(read, b, n) == scan_files(
            read.push((filename, size, bitrate)),
            rest,
            (n - 1) as nat,
        ),
{
}

/// The first file of a list is read as it was written.
#[verifier::spinoff_prover]
proof fn lemma_first_listing(
    read: Seq<(Seq<char>, u64, Option<u32>)>,
    f: SearchFileView,
    tail: Seq<u8>,
    n: nat,
)
    requires
        file_fits(f),
        n > 0,
    ensures
        scan_files(read, file_bytes(f) + tail, n) == scan_files(
            read.push(listing(f)),
            tail,
            (n - 1) as nat,
        ),
{
    lemma_file_parts(f, tail);
    lemma_bitrate_is_read(None, f.attributes, tail);
    let attributes = attribute_bytes(f.attributes) + tail;
    let ended = u32_bytes(f.attributes.len() as u32) + attributes;
    let named = u64_bytes(f.size) + (string_field(f.extension) + ended);
    lemma_listing_step(
        read,
        file_bytes(f) + tail,
        n,
        f.filename,
        named,
        f.size,
        f.extension,
        ended,
        f.attributes.len(),
        told_bitrate(f.attributes),
        tail,
    );
}

/// What is listed of some files.
pub open spec fn listings(files: Seq<SearchFileView>) -> Seq<(Seq<char>, u64, Option<u32>)> {
    files.map_values(|f: SearchFileView| listing(f))
}

/// What is listed of files without the first of them.
proof fn lemma_other_listings(files: Seq<SearchFileView>)
    requires
        files.len() > 0,
    ensures
        listings(files).len() > 0,
        listings(files)[0] == listing(files[0]),
        listings(files.skip(1)) == listings(files).skip(1),
{
    assert(listings(files.skip(1)) =~= listings(files).skip(1));
}

/// Files are listed as they were written.
#[verifier::spinoff_prover]
proof fn lemma_listing_is_read(
    read: Seq<(Seq<char>, u64, Option<u32>)>,
    files: Seq<SearchFileView>,
    rest: Seq<u8>,
)
    requires
        forall|i: int| 0 <= i < files.len() ==> file_fits(#[trigger] files[i]),
    ensures
        scan_files(read, files_bytes(files) + rest, files.len()) == Step::Done(
            read + listings(files),
            rest,
        ),
    decreases files.len(),
{
    lemma_first_file(files, rest);
    if files.len() == 0 {
        assert(read + listings(files) =~= read);
        assert(scan_files(read, rest, 0) == Step::Done(read, rest));
    } else {
        let f = files[0];
        let tail = files_bytes(files.skip(1)) + rest;
        lemma_first_listing(read, f, tail, files.len());
        lemma_listing_is_read(read.push(listing(f)), files.skip(1), rest);
        lemma_other_listings(files);
        lemma_first_and_others(read, listings(files));
    }
}

/// The statistics after the files, where all of them are there.
proof fn lemma_statistics_are_read(slot: u8, avg_speed: u32, queue_length: u32, rest: Seq<u8>)
    ensures
        scan_stats(seq![slot] + u32_bytes(avg_speed) + u32_bytes(queue_length) + rest) == (
            slot != 0,
            avg_speed,
            queue_length,
        ),
{
    let last = u32_bytes(queue_length) + rest;
    let after = u32_bytes(avg_speed) + last;
    lemma_join4(seq![slot], u32_bytes(avg_speed), u32_bytes(queue_length), rest);
    lemma_u32_round_trip(avg_speed, last);
    lemma_u32_round_trip(queue_length, rest);
    assert((seq![slot] + after).skip(1) =~= after);
}

/// A search response is read as the peer wrote it: who answers and to which search, every
/// file with its name, size and bitrate, whether a slot is free, the speed and the length of
/// the queue. It lists up to a hundred files.
pub proof fn law_search_response_is_read(
    username: Seq<char>,
    token: u32,
    files: Seq<SearchFileView>,
    slot: u8,
    avg_speed: u32,
    queue_length: u32,
    rest: Seq<u8>,
)
    requires
        encode_utf8(username).len() < 0x1_0000_0000,
        files.len() <= 100,
        forall|i: int| 0 <= i < files.len() ==> file_fits(#[trigger] files[i]),
    ensures
        outcome(
            search_response(
                search_bytes(
                    username,
                    token,
                    files,
                    seq![slot] + u32_bytes(avg_speed) + u32_bytes(queue_length) + rest,
                ),
            ),
        ) == Ok::<ParsedView, Halt>(
            ParsedView {
                username,
                token,
                files: listings(files),
                slot_free: slot != 0,
                avg_speed,
                queue_length,
            },
        ),
{
    lemma_statistics_are_read(slot, avg_speed, queue_length, rest);
    lemma_search_response_head(
        username,
        token,
        files,
        seq![slot] + u32_bytes(avg_speed) + u32_bytes(queue_length) + rest,
    );
}

/// A search response that ends after its files counts as one of a peer with a free slot,
/// without speed and without a queue.
pub proof fn law_search_response_without_statistics(
    username: Seq<char>,
    token: u32,
    files: Seq<SearchFileView>,
)
    requires
        encode_utf8(username).len() < 0x1_0000_0000,
        files.len() <= 100,
        forall|i: int| 0 <= i < files.len() ==> file_fits(#[trigger] files[i]),
    ensures
        outcome(search_response(search_bytes(username, token, files, Seq::empty())))
            matches Ok(response) && response.slot_free && response.avg_speed == 0
            && response.queue_length == 0 && response.token == token && response.username
            == username && response.files.len() == files.len(),
{
    lemma_search_response_head(username, token, files, Seq::empty());
}

/// A search response as a peer writes it, with what follows the files.
pub open spec fn search_bytes(
    username: Seq<char>,
    token: u32,
    files: Seq<SearchFileView>,
    tail: Seq<u8>,
) -> Seq<u8> {
    string_field(username) + u32_bytes(token) + u32_bytes(files.len() as u32) + files_bytes(files)
        + tail
}

/// A search response is read up to the statistics.
#[verifier::spinoff_prover]
proof fn lemma_search_response_head(
    username: Seq<char>,
    token: u32,
    files: Seq<SearchFileView>,
    tail: Seq<u8>,
)
    requires
        encode_utf8(username).len() < 0x1_0000_0000,
        files.len() <= 100,
        forall|i: int| 0 <= i < files.len() ==> file_fits(#[trigger] files[i]),
    ensures
        outcome(search_response(search_bytes(username, token, files, tail))) == Ok::<
            ParsedView,
            Halt,
        >(
            ParsedView {
                username,
                token,
                files: listings(files),
                slot_free: scan_stats(tail).0,
                avg_speed: scan_stats(tail).1,
                queue_length: scan_stats(tail).2,
            },
        ),
{
    let n = files.len() as u32;
    let c = files_bytes(files) + tail;
    let b = u32_bytes(n) + c;
    let a = u32_bytes(token) + b;
    let whole = string_field(username) + a;
    let none = Seq::<(Seq<char>, u64, Option<u32>)>::empty();
    let all = listings(files);
    lemma_join5(
        string_field(username),
        u32_bytes(token),
        u32_bytes(n),
        files_bytes(files),
        tail,
    );
    law_string_round_trip(username, a);
    law_u32_round_trip(token, b, Seq::empty());
    law_u32_round_trip(n, c, Seq::empty());
    lemma_listing_is_read(none, files, tail);
    assert(none + all =~= all);
    lemma_lengths(username, token, b);
    lemma_search_response_parts(whole, username, a, token, b, n, c, all, tail);
}

/// A text and a number take at least eight bytes.
proof fn lemma_lengths(s: Seq<char>, n: u32, rest: Seq<u8>)
    ensures
        (string_field(s) + (u32_bytes(n) + rest)).len() >= 8,
{
}

/// What the parts of a search response make of it.
proof fn lemma_search_response_parts(
    whole: Seq<u8>,
    username: Seq<char>,
    a: Seq<u8>,
    token: u32,
    b: Seq<u8>,
    n: u32,
    c: Seq<u8>,
    files: Seq<(Seq<char>, u64, Option<u32>)>,
    tail: Seq<u8>,
)
    requires
        whole.len() >= 8,
        n <= 100,
        step_string(whole) == Step::Done(username, a),
        step_u32(a) == Step::Done(token, b),
        step_u32(b) == Step::Done(n, c),
        scan_files(Seq::empty(), c, n as nat) == Step::Done(files, tail),
    ensures
        outcome(search_response(whole)) == Ok::<ParsedView, Halt>(
            ParsedView {
                username,
                token,
                files,
                slot_free: scan_stats(tail).0,
                avg_speed: scan_stats(tail).1,
                queue_length: scan_stats(tail).2,
            },
        ),
{
}

// ---------------------------------------------------------------------------
// Laws of handshakes
// ---------------------------------------------------------------------------
/// The body of a PeerInit gives the user, the kind of connection and the token that it holds.
pub proof fn law_init_body_is_read(
    username: Seq<char>,
    conn_type: Seq<char>,
    token: u32,
    rest: Seq<u8>,
)
    requires
        encode_utf8(username).len() < 0x1_0000_0000,
        encode_utf8(conn_type).len() < 0x1_0000_0000,
    ensures
        init_body(string_field(username) + string_field(conn_type) + u32_bytes(token) + rest)
            == Step::Done((username, conn_type, token), rest),
{
    let b = u32_bytes(token) + rest;
    let a = string_field(conn_type) + b;
    law_u32_round_trip(token, rest, Seq::empty());
    law_string_round_trip(conn_type, b);
    law_string_round_trip(username, a);
    lemma_join4(string_field(username), string_field(conn_type), u32_bytes(token), rest);
}

/// A peer that connects to us and sends a number that is no length of a message has sent the
/// token of a transfer: the connection is for that file and nothing is answered. The same
/// goes for an uploader that we connected to, and wherever a token is due.
pub proof fn law_token_opens_a_file_connection(n: u32, our_username: Seq<char>)
    ensures
        n < 5 || n >= 200 ==> handshake_next(
            Handshake::Incoming,
            InputView::Word(n),
            our_username,
        ) == (HandshakeMoveView::File { send: Seq::empty(), transfer_token: n }),
        n <= 5 || n >= 200 ==> handshake_next(
            Handshake::Indirect,
            InputView::Word(n),
            our_username,
        ) == (HandshakeMoveView::File { send: Seq::empty(), transfer_token: n }),
        handshake_next(Handshake::TransferToken, InputView::Word(n), our_username) == (
        HandshakeMoveView::File { send: Seq::empty(), transfer_token: n }),
{
}

/// A number that is a length of a message is taken for one, and the rest of the message is
/// read, to its last byte: its type and as many bytes as it announces without it. A message
/// of five bytes pierces a firewall; one with another length below 200 is a PeerInit.
pub proof fn law_announced_message_is_read(n: u32, our_username: Seq<char>)
    requires
        5 < n < 200,
    ensures
        handshake_next(Handshake::Incoming, InputView::Word(5), our_username) == quiet(
            Want::Byte,
            Handshake::PierceType,
        ),
        handshake_next(Handshake::Incoming, InputView::Word(n), our_username) == quiet(
            Want::Byte,
            Handshake::InitType { len: n },
        ),
        handshake_next(Handshake::InitType { len: n }, InputView::Byte(1), our_username)
            matches HandshakeMoveView::Read { send, want, state } && send.len() == 0 && (
        want matches Want::Data(k) && 1 + k == n) && state == Handshake::InitBody,
        handshake_next(Handshake::Indirect, InputView::Word(n), our_username) == quiet(
            Want::Byte,
            Handshake::IndirectType { len: n },
        ),
        handshake_next(Handshake::IndirectType { len: n }, InputView::Byte(1), our_username)
            matches HandshakeMoveView::Read { send, want, state } && send.len() == 0 && (
        want matches Want::Data(k) && 1 + k == n) && state == Handshake::IndirectBody,
{
}

/// A peer that announces a PeerInit and sends another type is turned away, and the type is
/// told. An uploader that we connected to may do so: its token is due then.
pub proof fn law_other_types(n: u32, t: u8, our_username: Seq<char>)
    requires
        5 < n < 200,
        t != 1,
    ensures
        handshake_next(Handshake::InitType { len: n }, InputView::Byte(t), our_username)
            == HandshakeMoveView::Refused(HandshakeError::NotPeerInit(t)),
        handshake_next(Handshake::IndirectType { len: n }, InputView::Byte(t), our_username)
            == quiet(Want::Word, Handshake::TransferToken),
{
}

/// What a PeerInit is for decides what follows: for messages the peer is answered and known
/// by the name and the token that it gave, for files its token is waited for without an
/// answer, and for anything else it is turned away.
pub proof fn law_init_is_followed_by_its_kind(
    username: Seq<char>,
    conn_type: Seq<char>,
    token: u32,
    our_username: Seq<char>,
)
    requires
        encode_utf8(username).len() < 0x1_0000_0000,
        encode_utf8(conn_type).len() < 0x1_0000_0000,
    ensures
        ({
            let body = string_field(username) + string_field(conn_type) + u32_bytes(token);
            let next = handshake_next(Handshake::InitBody, InputView::Data(body), our_username);
            &&& conn_type == "P"@ ==> next == (HandshakeMoveView::Peer {
                send: peer_init(our_username, "P"@),
                username,
                token,
            })
            &&& conn_type == "F"@ ==> next == quiet(Want::Word, Handshake::TransferToken)
            &&& conn_type != "P"@ && conn_type != "F"@ ==> next == HandshakeMoveView::Refused(
                HandshakeError::UnknownConnectionType,
            )
        }),
{
    law_init_body_is_read(username, conn_type, token, Seq::empty());
    crate::wire::lemma_append_nothing(
        string_field(username) + string_field(conn_type) + u32_bytes(token),
    );
    assert("P"@ != "F"@) by {
        reveal_strlit("P");
        reveal_strlit("F");
        assert("P"@[0] != "F"@[0]);
    }
}

/// A connection that we make for a file announces the token of the transfer whatever the peer
/// answers, or where it answers nothing, and always the same token.
pub proof fn law_our_file_connection_announces_its_token(
    token: u32,
    len: u32,
    input: InputView,
    our_username: Seq<char>,
)
    requires
        5 < len < 200,
    ensures
        ({
            let first = handshake_next(Handshake::Proactive { token }, input, our_username);
            let second = handshake_next(
                Handshake::ProactiveType { len, token },
                input,
                our_username,
            );
            let third = handshake_next(Handshake::ProactiveBody { token }, input, our_username);
            let announced = HandshakeMoveView::File {
                send: u32_bytes(token),
                transfer_token: token,
            };
            &&& input == InputView::TimedOut || input == InputView::Broken ==> first == announced
            &&& input matches InputView::Word(n) ==> first == if 5 < n < 200 {
                quiet(Want::Byte, Handshake::ProactiveType { len: n, token })
            } else {
                announced
            }
            &&& input matches InputView::Byte(t) ==> if t == 1 {
                second matches HandshakeMoveView::Read { send, want, state } && send.len() == 0
                    && state == (Handshake::ProactiveBody { token }) && (want matches Want::Data(k)
                    && 1 + k == len)
            } else {
                second == announced
            }
            &&& input is Data ==> third == announced
        }),
{
}

/// Where nothing was read, a handshake fails, but for a connection of ours whose answer is
/// not needed.
pub proof fn law_silent_peer_is_given_up(state: Handshake, our_username: Seq<char>)
    requires
        !(state is Proactive),
    ensures
        handshake_next(state, InputView::TimedOut, our_username) == HandshakeMoveView::Refused(
            HandshakeError::NothingRead,
        ),
        handshake_next(state, InputView::Broken, our_username) == HandshakeMoveView::Refused(
            HandshakeError::NothingRead,
        ),
{
}

// ---------------------------------------------------------------------------
// Laws of waiting for results
// ---------------------------------------------------------------------------
/// The data of a message with the code of a search response is read as one: a response that
/// can be read is found, and nothing else is. This holds of the first message of a peer that
/// we connected to as of every later one.
pub proof fn law_search_response_is_found(
    patient: bool,
    attempt: u32,
    data: Seq<u8>,
    len: u32,
    code: u32,
)
    requires
        100 < len < 10_000_000,
    ensures
        results_next(patient, Waiting::FirstCode { len }, InputView::Word(9)) == reads(
            Want::Data((len - 4) as u32),
            Waiting::FirstData,
        ),
        code != 9 ==> results_next(patient, Waiting::FirstCode { len }, InputView::Word(code))
            == reads(Want::Data((len - 4) as u32), Waiting::FirstSkip),
        match outcome(search_response(unpacked(data))) {
            Ok(response) => {
                &&& results_next(patient, Waiting::FirstData, InputView::Data(data))
                    == ResultsMoveView::Found(response)
                &&& results_next(
                    patient,
                    Waiting::Data { attempt, code: 9 },
                    InputView::Data(data),
                ) == ResultsMoveView::Found(response)
            },
            Err(Halt::Failed(e)) => {
                &&& results_next(patient, Waiting::FirstData, InputView::Data(data))
                    == ResultsMoveView::Failed(ResultsError::Wire(e))
                &&& results_next(
                    patient,
                    Waiting::Data { attempt, code: 9 },
                    InputView::Data(data),
                ) == ResultsMoveView::Failed(ResultsError::Wire(e))
            },
            Err(Halt::Short) => {
                &&& results_next(patient, Waiting::FirstData, InputView::Data(data))
                    == ResultsMoveView::Short
                &&& results_next(
                    patient,
                    Waiting::Data { attempt, code: 9 },
                    InputView::Data(data),
                ) == ResultsMoveView::Short
            },
        },
        code != 9 ==> !(results_next(
            patient,
            Waiting::Data { attempt, code },
            InputView::Data(data),
        ) is Found),
{
}

/// What the first number of a peer that we connected to announces: a message that may be a
/// search response from 101 bytes on, a PierceFirewall with five bytes, a PeerInit with up to
/// a hundred, and else nothing that is read on.
pub proof fn law_first_message_is_told_by_its_length(patient: bool, len: u32)
    ensures
        100 < len < 10_000_000 ==> results_next(patient, Waiting::First, InputView::Word(len))
            == reads(Want::Word, Waiting::FirstCode { len }),
        len == 5 ==> results_next(patient, Waiting::First, InputView::Word(len)) == reads(
            Want::Byte,
            Waiting::PierceByte,
        ),
        5 < len <= 100 ==> results_next(patient, Waiting::First, InputView::Word(len)) == reads(
            Want::Byte,
            Waiting::InitByte { len },
        ),
        len < 5 || len >= 10_000_000 ==> results_next(
            patient,
            Waiting::First,
            InputView::Word(len),
        ) == (ResultsMoveView::Read {
            want: Want::Word,
            limit: Some(
                if patient {
                    3u64
                } else {
                    5u64
                },
            ),
            state: Waiting::Length { attempt: 0 },
        }),
        results_next(patient, Waiting::First, InputView::TimedOut) == ResultsMoveView::Failed(
            ResultsError::Timeout,
        ),
        results_next(patient, Waiting::First, InputView::Broken) == ResultsMoveView::Failed(
            ResultsError::Read,
        ),
{
}

/// What comes before the messages of a peer is read to its end and passed over: the type and
/// the token of a PierceFirewall, and the type and the rest of a PeerInit. Then the first of
/// ten messages is waited for.
pub proof fn law_greetings_are_passed_over(
    patient: bool,
    t: u8,
    token: u32,
    len: u32,
    data: Seq<u8>,
)
    requires
        5 < len < 200,
    ensures
        results_next(patient, Waiting::PierceByte, InputView::Byte(t)) == reads(
            Want::Word,
            Waiting::PierceWord,
        ),
        results_next(patient, Waiting::PierceWord, InputView::Word(token)) matches
            ResultsMoveView::Read { want, limit, state } && want == Want::Word && state
            == (Waiting::Length { attempt: 0 }),
        results_next(patient, Waiting::InitByte { len }, InputView::Byte(t)) matches
            ResultsMoveView::Read { want, limit, state } && (want matches Want::Data(k) && 1 + k
            == len) && state == Waiting::InitData,
        results_next(patient, Waiting::InitData, InputView::Data(data)) matches
            ResultsMoveView::Read { want, limit, state } && want == Want::Word && state
            == (Waiting::Length { attempt: 0 }),
        results_next(patient, Waiting::FirstSkip, InputView::Data(data)) matches
            ResultsMoveView::Read { want, limit, state } && want == Want::Word && state
            == (Waiting::Length { attempt: 0 }),
{
}

/// Every message that is no search response counts: after it the next one is waited for, for
/// three seconds by a patient wait and for five by another, and after the tenth there is no
/// response. A message of no length or above ten megabytes counts as one.
pub proof fn law_messages_are_counted(
    patient: bool,
    attempt: u32,
    code: u32,
    data: Seq<u8>,
    len: u32,
)
    requires
        attempt < 10,
        code != 9,
        len == 0 || len > 10_000_000,
    ensures
        ({
            let next = results_next(patient, Waiting::Data { attempt, code }, InputView::Data(data));
            let skipped = results_next(patient, Waiting::Length { attempt }, InputView::Word(len));
            &&& next == skipped
            &&& attempt == 9 ==> next == ResultsMoveView::Failed(ResultsError::NoResponse)
            &&& attempt < 9 ==> next == (ResultsMoveView::Read {
                want: Want::Word,
                limit: Some(
                    if patient {
                        3u64
                    } else {
                        5u64
                    },
                ),
                state: Waiting::Length { attempt: (attempt + 1) as u32 },
            })
        }),
{
}

/// A message is read by its length: its code, and as many bytes as are left of it without the
/// code; one without room for a code is too short.
pub proof fn law_message_is_read_by_its_length(patient: bool, attempt: u32, len: u32, code: u32)
    requires
        attempt < 10,
        0 < len <= 10_000_000,
    ensures
        results_next(patient, Waiting::Length { attempt }, InputView::Word(len)) == reads(
            Want::Word,
            Waiting::Code { attempt, len },
        ),
        len >= 4 ==> (results_next(patient, Waiting::Code { attempt, len }, InputView::Word(code))
            matches ResultsMoveView::Read { want, limit, state } && limit is None && (
        want matches Want::Data(k) && 4 + k == len) && state == (Waiting::Data { attempt, code })),
        len < 4 ==> results_next(patient, Waiting::Code { attempt, len }, InputView::Word(code))
            == ResultsMoveView::Short,
{
}

/// A patient wait goes on when nothing came in time, nine times; another one ends at once.
pub proof fn law_patience(attempt: u32)
    requires
        attempt < 10,
    ensures
        results_next(false, Waiting::Length { attempt }, InputView::TimedOut)
            == ResultsMoveView::Failed(ResultsError::Timeout),
        attempt == 9 ==> results_next(true, Waiting::Length { attempt }, InputView::TimedOut)
            == ResultsMoveView::Failed(ResultsError::Timeout),
        attempt < 9 ==> (results_next(true, Waiting::Length { attempt }, InputView::TimedOut)
            matches ResultsMoveView::Read { want, limit, state } && want == Want::Word && limit
            == Some(3u64) && state == (Waiting::Length { attempt: (attempt + 1) as u32 })),
        results_next(true, Waiting::Length { attempt }, InputView::Broken)
            == ResultsMoveView::Failed(ResultsError::Read),
        results_next(false, Waiting::Length { attempt }, InputView::Broken)
            == ResultsMoveView::Failed(ResultsError::Read),
{
}

// ---------------------------------------------------------------------------
// Laws of transfers
// ---------------------------------------------------------------------------
/// A peer that offers to upload is taken at its word: the transfer is accepted with the size
/// that the peer tells, under its token, and the answer holds that token and a yes. A request
/// in the other direction is passed over.
#[verifier::spinoff_prover]
pub proof fn law_offered_upload_is_accepted(
    direction: u32,
    token: u32,
    filename: Seq<char>,
    size: u64,
    rest: Seq<u8>,
)
    requires
        encode_utf8(filename).len() < 0x1_0000_0000,
    ensures
        transfer_next(
            40,
            u32_bytes(1) + u32_bytes(token) + string_field(filename) + u64_bytes(size) + rest,
        ) == (TransferMoveView::Accept {
            send: frame(41, u32_bytes(token).push(1)),
            filesize: size,
            transfer_token: token,
        }),
        direction != 1 ==> transfer_next(
            40,
            u32_bytes(direction) + u32_bytes(token) + string_field(filename) + rest,
        ) == TransferMoveView::Wait,
{
    let d = u64_bytes(size) + rest;
    let c = string_field(filename) + d;
    let b = u32_bytes(token) + c;
    law_u64_round_trip(size, rest);
    law_string_round_trip(filename, d);
    law_u32_round_trip(token, c, Seq::empty());
    law_u32_round_trip(1, b, Seq::empty());
    lemma_join5(
        u32_bytes(1),
        u32_bytes(token),
        string_field(filename),
        u64_bytes(size),
        rest,
    );
    lemma_offer_parts(u32_bytes(1) + b, 1, b, token, c, filename, d, size, rest);
    let y = string_field(filename) + rest;
    let x = u32_bytes(token) + y;
    law_string_round_trip(filename, rest);
    law_u32_round_trip(token, y, Seq::empty());
    law_u32_round_trip(direction, x, Seq::empty());
    lemma_join4(u32_bytes(direction), u32_bytes(token), string_field(filename), rest);
    if direction != 1 {
        lemma_offer_parts(
            u32_bytes(direction) + x,
            direction,
            x,
            token,
            y,
            filename,
            rest,
            size,
            rest,
        );
    }
}

/// What the parts of a request to transfer make of it.
proof fn lemma_offer_parts(
    whole: Seq<u8>,
    direction: u32,
    b: Seq<u8>,
    token: u32,
    c: Seq<u8>,
    filename: Seq<char>,
    d: Seq<u8>,
    size: u64,
    rest: Seq<u8>,
)
    requires
        step_u32(whole) == Step::Done(direction, b),
        step_u32(b) == Step::Done(token, c),
        step_string(c) == Step::Done(filename, d),
        direction == 1 ==> step_u64(d) == Step::Done(size, rest),
    ensures
        transfer_next(40, whole) == if direction == 1 {
            TransferMoveView::Accept {
                send: frame(41, u32_bytes(token).push(1)),
                filesize: size,
                transfer_token: token,
            }
        } else {
            TransferMoveView::Wait
        },
{
}

/// A peer whose upload failed has denied the transfer. A place in its queue and every message
/// that does not speak of the transfer leave the download waiting.
pub proof fn law_other_messages_leave_it_waiting(
    code: u32,
    filename: Seq<char>,
    place: u32,
    rest: Seq<u8>,
)
    requires
        encode_utf8(filename).len() < 0x1_0000_0000,
    ensures
        transfer_next(46, string_field(filename) + rest) == (TransferMoveView::Denied {
            reason: "Upload failed"@,
        }),
        transfer_next(44, string_field(filename) + u32_bytes(place) + rest)
            == TransferMoveView::Wait,
        code != 40 && code != 44 && code != 46 && code != 50 ==> transfer_next(code, rest)
            == TransferMoveView::Wait,
{
    law_string_round_trip(filename, rest);
    law_u32_round_trip(place, rest, Seq::empty());
    law_string_round_trip(filename, u32_bytes(place) + rest);
    lemma_join3(string_field(filename), u32_bytes(place), rest);
}

/// A transfer that the peer allows is allowed with the size that the peer tells in eight
/// bytes: the length, the code, the token, the yes and the size are read one after the other.
pub proof fn law_allowed_transfer(
    transfer_token: u32,
    len: u32,
    any: u32,
    filesize: u64,
    rest: Seq<u8>,
)
    ensures
        negotiation_next(transfer_token, Negotiating::Length, InputView::Word(len)) == (
        NegotiationMoveView::Read { want: Want::Word, state: Negotiating::Code { len } }),
        negotiation_next(transfer_token, Negotiating::Code { len }, InputView::Word(41)) == (
        NegotiationMoveView::Read { want: Want::Word, state: Negotiating::ReplyToken { len } }),
        negotiation_next(transfer_token, Negotiating::ReplyToken { len }, InputView::Word(any)) == (
        NegotiationMoveView::Read { want: Want::Byte, state: Negotiating::ReplyAllowed { len } }),
        negotiation_next(transfer_token, Negotiating::ReplyAllowed { len }, InputView::Byte(1)) == (
        NegotiationMoveView::Read { want: Want::Data(8), state: Negotiating::Size }),
        negotiation_next(
            transfer_token,
            Negotiating::Size,
            InputView::Data(u64_bytes(filesize) + rest),
        ) == NegotiationMoveView::Done(NegotiationView::Allowed { filesize, transfer_token }),
        rest.len() < 8 ==> negotiation_next(
            transfer_token,
            Negotiating::Size,
            InputView::Data(rest),
        ) == NegotiationMoveView::Failed(NegotiationError::Short),
{
    law_u64_round_trip(filesize, rest);
}

/// Another answer is read to the end that its length announces: the data of an answer without
/// its code, and the reason of a refusal without code, token and answer. A length that leaves
/// no room for them is too short.
pub proof fn law_other_answers_are_read_to_their_end(
    transfer_token: u32,
    len: u32,
    code: u32,
    answer: u8,
)
    requires
        code != 41,
        answer != 1,
    ensures
        len >= 4 ==> (negotiation_next(
            transfer_token,
            Negotiating::Code { len },
            InputView::Word(code),
        ) matches NegotiationMoveView::Read { want, state } && (want matches Want::Data(k) && 4 + k
            == len) && state == (Negotiating::Answer { code })),
        len < 4 ==> negotiation_next(
            transfer_token,
            Negotiating::Code { len },
            InputView::Word(code),
        ) == NegotiationMoveView::Failed(NegotiationError::Short),
        len >= 9 ==> (negotiation_next(
            transfer_token,
            Negotiating::ReplyAllowed { len },
            InputView::Byte(answer),
        ) matches NegotiationMoveView::Read { want, state } && (want matches Want::Data(k) && 9 + k
            == len) && state == Negotiating::Reason),
        len < 9 ==> negotiation_next(
            transfer_token,
            Negotiating::ReplyAllowed { len },
            InputView::Byte(answer),
        ) == NegotiationMoveView::Failed(NegotiationError::Short),
{
}

/// An answer gives a place in the queue, or a reason for the denial; an answer with another
/// code is unexpected. Either one ends the negotiation.
#[verifier::spinoff_prover]
pub proof fn law_answers_end_the_negotiation(
    transfer_token: u32,
    code: u32,
    filename: Seq<char>,
    place: u32,
    reason: Seq<char>,
    rest: Seq<u8>,
)
    requires
        encode_utf8(filename).len() < 0x1_0000_0000,
        encode_utf8(reason).len() < 0x1_0000_0000,
    ensures
        negotiation_next(
            transfer_token,
            Negotiating::Answer { code: 44 },
            InputView::Data(string_field(filename) + u32_bytes(place) + rest),
        ) == NegotiationMoveView::Done(
            NegotiationView::Queued {
                transfer_token,
                position: Some(place),
                reason: "Position "@ + crate::text::decimal(place as nat),
            },
        ),
        negotiation_next(
            transfer_token,
            Negotiating::Answer { code: 50 },
            InputView::Data(string_field(filename) + string_field(reason) + rest),
        ) == NegotiationMoveView::Done(NegotiationView::Denied { reason }),
        code != 44 && code != 50 ==> negotiation_next(
            transfer_token,
            Negotiating::Answer { code },
            InputView::Data(rest),
        ) == NegotiationMoveView::Failed(NegotiationError::UnexpectedCode(code)),
{
    law_u32_round_trip(place, rest, Seq::empty());
    law_string_round_trip(filename, u32_bytes(place) + rest);
    lemma_join3(string_field(filename), u32_bytes(place), rest);
    law_string_round_trip(reason, rest);
    law_string_round_trip(filename, string_field(reason) + rest);
    lemma_join3(string_field(filename), string_field(reason), rest);
    let placed = string_field(filename) + u32_bytes(place) + rest;
    let refused = string_field(filename) + string_field(reason) + rest;
    assert(queue_place(placed) == Step::Done(place, rest));
    assert(denial(refused) == Step::Done(reason, rest));
}

/// A refusal whose reason has the word queue in it, in any case of letters, means that the
/// transfer is queued, under the token of the request; any other reason denies it. The reason
/// is kept as the peer gave it.
pub proof fn law_reason_decides_on_a_refusal(
    transfer_token: u32,
    reason: Seq<char>,
    rest: Seq<u8>,
)
    requires
        encode_utf8(reason).len() < 0x1_0000_0000,
    ensures
        ({
            let next = negotiation_next(
                transfer_token,
                Negotiating::Reason,
                InputView::Data(string_field(reason) + rest),
            );
            &&& occurs(lowercase(reason), "queue"@) ==> next == NegotiationMoveView::Done(
                NegotiationView::Queued { transfer_token, position: None, reason },
            )
            &&& !occurs(lowercase(reason), "queue"@) ==> next == NegotiationMoveView::Done(
                NegotiationView::Denied { reason },
            )
        }),
{
    law_string_round_trip(reason, rest);
    let lower = lowercase(reason);
    reveal_strlit("queued");
    reveal_strlit("queue");
    if occurs(lower, "queued"@) {
        let i = choose|i: int| crate::text::occurs_at(lower, "queued"@, i);
        assert(lower.subrange(i, i + 6) == "queued"@);
        assert(lower.subrange(i, i + 5) =~= lower.subrange(i, i + 6).take(5));
        assert("queued"@.take(5) =~= "queue"@);
        assert(crate::text::occurs_at(lower, "queue"@, i));
    }
}

/// A peer that says nothing is given up.
pub proof fn law_silence_ends_the_negotiation(transfer_token: u32, state: Negotiating)
    ensures
        negotiation_next(transfer_token, state, InputView::TimedOut) == NegotiationMoveView::Failed(
            NegotiationError::NothingRead,
        ),
        negotiation_next(transfer_token, state, InputView::Broken) == NegotiationMoveView::Failed(
            NegotiationError::NothingRead,
        ),
{
}

/// Progress is reported only in the first 64 KB behind a multiple of 256 KB.
pub proof fn law_reports_follow_a_multiple(total: u64)
    ensures
        reports_at(total) <==> total - (total / 262_144) * 262_144 < 65_536,
{
}

/// A request of the server to connect is followed where it is for files and names our
/// uploader, to the address, the port and the token that it gives. Every other one, and every
/// other message, is passed over.
pub proof fn law_brokered_connection_is_that_of_the_uploader(
    username: Seq<char>,
    conn_type: Seq<char>,
    address: Seq<u8>,
    port: u32,
    token: u32,
    rest: Seq<u8>,
    peer_username: Seq<char>,
    code: u32,
    data: Seq<u8>,
)
    requires
        encode_utf8(username).len() < 0x1_0000_0000,
        encode_utf8(conn_type).len() < 0x1_0000_0000,
        address.len() == 4,
    ensures
        brokered(
            18,
            string_field(username) + string_field(conn_type) + address + u32_bytes(port)
                + u32_bytes(token) + rest,
            peer_username,
        ) == if conn_type == "F"@ && username == peer_username {
            FileWaitView::Connect {
                ip: dotted(address[3], address[2], address[1], address[0]),
                port,
                token,
            }
        } else {
            FileWaitView::Wait
        },
        code != 18 ==> brokered(code, data, peer_username) == FileWaitView::Wait,
{
    law_connect_to_peer_is_read(username, conn_type, address, port, token, rest);
}

/// Where something was begun and does not come to its end, waiting for results fails: in every
/// state but the two in which a message may be missing, a read that failed or brought nothing
/// in time is a failure to read.
pub proof fn law_broken_reads_end_the_wait(patient: bool, state: Waiting)
    requires
        state != Waiting::First,
        !(state is Length),
    ensures
        results_next(patient, state, InputView::TimedOut) == ResultsMoveView::Failed(
            ResultsError::Read,
        ),
        results_next(patient, state, InputView::Broken) == ResultsMoveView::Failed(
            ResultsError::Read,
        ),
{
}

/// A message that is cut off in its first text or number is told as what it is: a text whose
/// length is missing is refused, and a number that is missing makes the message too short.
pub proof fn law_cut_off_messages_are_told(
    b: Seq<u8>,
    token: u32,
    username: Seq<char>,
    text: Seq<char>,
)
    requires
        b.len() < 4,
        encode_utf8(text).len() < 0x1_0000_0000,
    ensures
        transfer_next(40, b) == TransferMoveView::Short,
        transfer_next(44, b) == TransferMoveView::Failed(WireError::StringLength),
        transfer_next(46, b) == TransferMoveView::Failed(WireError::StringLength),
        transfer_next(50, b) == TransferMoveView::Failed(WireError::StringLength),
        transfer_next(44, string_field(text) + b) == TransferMoveView::Short,
        transfer_next(50, string_field(text) + b) == TransferMoveView::Failed(
            WireError::StringLength,
        ),
        negotiation_answer(token, 44, b) == Err::<NegotiationView, NegotiationError>(
            NegotiationError::Wire(WireError::StringLength),
        ),
        negotiation_answer(token, 44, string_field(text) + b) == Err::<
            NegotiationView,
            NegotiationError,
        >(NegotiationError::Short),
        negotiation_answer(token, 50, string_field(text) + b) == Err::<
            NegotiationView,
            NegotiationError,
        >(NegotiationError::Wire(WireError::StringLength)),
        refused_transfer(token, b) == Err::<NegotiationView, NegotiationError>(
            NegotiationError::Wire(WireError::StringLength),
        ),
        handshake_next(Handshake::InitBody, InputView::Data(b), username)
            == HandshakeMoveView::Refused(HandshakeError::Wire(WireError::StringLength)),
        brokered(18, b, username) == FileWaitView::Failed(WireError::StringLength),
        search_response(b) matches Step::Failed(e, rest) && e == WireError::NotEnoughData,
{
    law_string_round_trip(text, b);
    assert(queue_place(string_field(text) + b) is Short);
    assert(denial(string_field(text) + b) == Step::<Seq<char>>::Failed(WireError::StringLength, b));
}

/// The body of a PeerInit without its token is too short.
pub proof fn law_init_without_token_is_short(
    username: Seq<char>,
    conn_type: Seq<char>,
    b: Seq<u8>,
    our_username: Seq<char>,
)
    requires
        b.len() < 4,
        encode_utf8(username).len() < 0x1_0000_0000,
        encode_utf8(conn_type).len() < 0x1_0000_0000,
    ensures
        handshake_next(
            Handshake::InitBody,
            InputView::Data(string_field(username) + string_field(conn_type) + b),
            our_username,
        ) == HandshakeMoveView::Short,
{
    law_string_round_trip(conn_type, b);
    law_string_round_trip(username, string_field(conn_type) + b);
    lemma_join3(string_field(username), string_field(conn_type), b);
}

/// A list of files may end before all that were announced have come: between two files, or
/// where the size or the attributes of a file are missing. What was read so far is the list
/// then. One that ends where a name is due is refused.
#[verifier::spinoff_prover]
pub proof fn law_list_may_end_early(
    read: Seq<(Seq<char>, u64, Option<u32>)>,
    n: nat,
    code: u8,
    filename: Seq<char>,
    size: u64,
    extension: Seq<char>,
    few: Seq<u8>,
    fewer: Seq<u8>,
)
    requires
        n > 0,
        encode_utf8(filename).len() < 0x1_0000_0000,
        encode_utf8(extension).len() < 0x1_0000_0000,
        few.len() < 8,
        fewer.len() < 4,
    ensures
        scan_files(read, Seq::empty(), n) == Step::Done(read, Seq::<u8>::empty()),
        scan_files(read, seq![code], n) == Step::<Seq<(Seq<char>, u64, Option<u32>)>>::Failed(
            WireError::StringLength,
            Seq::<u8>::empty(),
        ),
        scan_files(read, seq![code] + string_field(filename) + few, n) == Step::Done(read, few),
        scan_files(
            read,
            seq![code] + string_field(filename) + u64_bytes(size) + string_field(extension) + fewer,
            n,
        ) == Step::Done(read, fewer),
{
    assert(seq![code].skip(1) =~= Seq::<u8>::empty());
    let a = string_field(filename) + few;
    lemma_join3(seq![code], string_field(filename), few);
    assert((seq![code] + a).skip(1) =~= a);
    law_string_round_trip(filename, few);
    let d = string_field(extension) + fewer;
    let c = u64_bytes(size) + d;
    let b = string_field(filename) + c;
    lemma_join5(
        seq![code],
        string_field(filename),
        u64_bytes(size),
        string_field(extension),
        fewer,
    );
    assert((seq![code] + b).skip(1) =~= b);
    law_string_round_trip(filename, c);
    law_u64_round_trip(size, d);
    law_string_round_trip(extension, fewer);
}

/// The statistics may be cut off too: what is missing of them counts as no speed and no queue,
/// and what is there counts.
pub proof fn law_statistics_may_end_early(
    username: Seq<char>,
    token: u32,
    files: Seq<SearchFileView>,
    slot: u8,
    avg_speed: u32,
)
    requires
        encode_utf8(username).len() < 0x1_0000_0000,
        files.len() <= 100,
        forall|i: int| 0 <= i < files.len() ==> file_fits(#[trigger] files[i]),
    ensures
        outcome(search_response(search_bytes(username, token, files, seq![slot])))
            matches Ok(response) && response.slot_free == (slot != 0) && response.avg_speed == 0
            && response.queue_length == 0,
        outcome(
            search_response(
                search_bytes(username, token, files, seq![slot] + u32_bytes(avg_speed)),
            ),
        ) matches Ok(response) && response.slot_free == (slot != 0) && response.avg_speed
            == avg_speed && response.queue_length == 0,
{
    let told = seq![slot] + u32_bytes(avg_speed);
    lemma_u32_round_trip(avg_speed, Seq::empty());
    crate::wire::lemma_append_nothing(u32_bytes(avg_speed));
    assert(told.skip(1) =~= u32_bytes(avg_speed));
    lemma_search_response_head(username, token, files, seq![slot]);
    lemma_search_response_head(username, token, files, told);
}

/// A response that ends behind its token is cut off, not refused.
pub proof fn law_response_without_count_is_short(token: u32)
    ensures
        search_response(u32_bytes(0) + u32_bytes(token)) is Short,
{
    let none = Seq::<u8>::empty();
    let b = u32_bytes(0) + u32_bytes(token);
    lemma_u32_round_trip(0, u32_bytes(token));
    lemma_u32_round_trip(token, none);
    crate::wire::lemma_append_nothing(u32_bytes(token));
    assert(b.skip(4).take(0) =~= none);
    assert(b.skip(4).skip(0) =~= u32_bytes(token));
    vstd::utf8::encode_utf8_valid_utf8(Seq::<char>::empty());
    assert(encode_utf8(Seq::<char>::empty()) =~= none);
}

} // verus!
