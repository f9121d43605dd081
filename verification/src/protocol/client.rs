//! The client: logging in, answering peers, searching, and downloading.
//!
//! The decisions of the client are functions of what it knows and what came in; the
//! connections themselves are run from outside.

use crate::protocol::file_selection::{after_last, last_position, lemma_after_last, lemma_last_position};
use crate::protocol::messages::{
    file_fits, file_views, first_attribute, read_address, server_payload, step_address, u32_at, FileAttribute, SearchFile,
    SearchFileView, ServerMessage, ServerMessageView,
};
use crate::protocol::peer::{
    law_search_response_is_read, listed, listings, search_bytes, search_response, told_bitrate,
    try_parse_file_search_response, unpack, unpacked, ParsedSearchResponse, ParsedView,
};
use crate::text::{chars_of, decimal, dotted, last_of, opt_text, push_decimal, push_text, text_of};
use crate::wire::{
    as_slice, buffer_of, contents, frame, law_string_round_trip, lemma_u32_round_trip,
    length_field, message_frame, new_buffer, outcome,
    put_u32_le, put_u8, read_string, read_u32, read_u8, step_string, string_field, u32_bytes,
    u32_value, write_string, Halt, Step, WireError,
};
use vstd::prelude::*;
use vstd::string::StringSliceAdditionalSpecFns;
use vstd::utf8::encode_utf8;

verus! {

/// Default port for incoming peer connections
pub const PEER_LISTEN_PORT: u16 = 2234;

/// Obfuscated port for incoming peer connections (PEER_LISTEN_PORT + 1)
pub const PEER_OBFUSCATED_PORT: u16 = 2235;

/// The port of the Soulseek server.
pub const SERVER_PORT: u16 = 2242;

/// Maximum number of peer connections to cache for potential downloads
pub const MAX_CACHED_PEER_CONNECTIONS: usize = 100;

/// Search result from the network
#[derive(Debug, Clone)]
pub struct SearchResult {
    pub username: String,
    pub files: Vec<SearchFile>,
    pub has_slots: bool,
    pub avg_speed: u32,
    pub queue_length: u64,
    pub peer_ip: String,
    pub peer_port: u32,
}

/// A search result with its texts as character sequences.
#[verifier::ext_equal]
pub struct SearchResultView {
    pub username: Seq<char>,
    pub files: Seq<SearchFileView>,
    pub has_slots: bool,
    pub avg_speed: u32,
    pub queue_length: u64,
    pub peer_ip: Seq<char>,
    pub peer_port: u32,
}

impl View for SearchResult {
    type V = SearchResultView;

    open spec fn view(&self) -> SearchResultView {
        SearchResultView {
            username: self.username@,
            files: file_views(self.files@),
            has_slots: self.has_slots,
            avg_speed: self.avg_speed,
            queue_length: self.queue_length,
            peer_ip: self.peer_ip@,
            peer_port: self.peer_port,
        }
    }
}

// ---------------------------------------------------------------------------
// Logging in
// ---------------------------------------------------------------------------
/// The MD5 digest of some bytes in lower-case hexadecimal, as the `md5` crate computes it.
pub uninterp spec fn md5_hex(data: Seq<u8>) -> Seq<char>;

/// `md5::compute`, with the digest in lower-case hexadecimal.
#[verifier::external_body]
fn md5_digest(data: &[u8]) -> (digest: String)
    ensures
        digest@ == md5_hex(data@),
{
    format!("{:x}", md5::compute(data))
}

/// The protocol version that this client speaks.
pub const PROTOCOL_VERSION: u32 = 160;

/// The message that logs a user in: the digest is that of user name and password together.
pub open spec fn login_view(username: Seq<char>, password: Seq<char>) -> ServerMessageView {
    ServerMessageView::Login {
        username,
        password,
        version: PROTOCOL_VERSION,
        md5_hash: md5_hex(encode_utf8(username + password)),
        minor_version: 1,
    }
}

/// The message that logs a user in.
pub fn login_message(username: &str, password: &str) -> (m: ServerMessage)
    ensures
        m@ == login_view(username@, password@),
{
    let mut combined = username.to_owned();
    push_text(&mut combined, password);
    ServerMessage::Login {
        username: username.to_owned(),
        password: password.to_owned(),
        version: PROTOCOL_VERSION,
        md5_hash: md5_digest(combined.as_str().as_bytes()),
        minor_version: 1,
    }
}

/// Writes the request that logs a user in.
pub fn login_request(username: &str, password: &str) -> (message: Vec<u8>)
    ensures
        server_payload(login_view(username@, password@)) matches Some((code, data)) && message@
            == frame(code.number(), data),
{
    let mut combined = username.to_owned();
    push_text(&mut combined, password);
    let digest = md5_digest(combined.as_str().as_bytes());
    let mut data = new_buffer();
    write_string(&mut data, username);
    write_string(&mut data, password);
    put_u32_le(&mut data, PROTOCOL_VERSION);
    write_string(&mut data, digest.as_str());
    put_u32_le(&mut data, 1);
    assert(contents(data) =~= server_payload(login_view(username@, password@))->Some_0.1);
    message_frame(1, as_slice(&data))
}

/// What the server answered to a login.
#[derive(Debug, Clone)]
pub enum LoginError {
    /// The server refused, and said why.
    Refused(String),
    /// The answer cannot be read.
    Wire(WireError),
    /// A field of fixed size reaches past the end of the answer.
    Short,
}

/// The same with texts as character sequences.
#[verifier::ext_equal]
pub enum LoginErrorView {
    Refused(Seq<char>),
    Wire(WireError),
    Short,
}

impl View for LoginError {
    type V = LoginErrorView;

    open spec fn view(&self) -> LoginErrorView {
        match *self {
            LoginError::Refused(reason) => LoginErrorView::Refused(reason@),
            LoginError::Wire(e) => LoginErrorView::Wire(e),
            LoginError::Short => LoginErrorView::Short,
        }
    }
}

/// What an answer to the login means: our external address, where the server gives it, or
/// the refusal. A message of another code says nothing.
pub open spec fn login_outcome(code: u32, data: Seq<u8>) -> Result<
    Option<Seq<char>>,
    LoginErrorView,
> {
    if code != 1 {
        Ok(None)
    } else if data.len() < 1 {
        Err(LoginErrorView::Short)
    } else {
        match step_string(data.skip(1)) {
            Step::Done(text, rest) => if data[0] == 0 {
                Err(LoginErrorView::Refused(text))
            } else {
                match step_address(rest) {
                    Step::Done(ip, after) => Ok(Some(ip)),
                    _ => Ok(None),
                }
            },
            Step::Failed(e, rest) => Err(LoginErrorView::Wire(e)),
            Step::Short => Err(LoginErrorView::Short),
        }
    }
}

/// Reads the answer to a login.
pub fn parse_login_response(code: u32, data: &[u8]) -> (r: Result<Option<String>, LoginError>)
    ensures
        match r {
            Ok(ip) => login_outcome(code, data@) == Ok::<_, LoginErrorView>(opt_text(ip)),
            Err(e) => login_outcome(code, data@) == Err::<Option<Seq<char>>, _>(e@),
        },
{
    if code != 1 {
        return Ok(None);
    }
    let mut buf = buffer_of(data);
    let success: bool = match read_u8(&mut buf) {
        Ok(b) => b != 0,
        Err(_) => return Err(LoginError::Short),
    };
    let text = match read_string(&mut buf) {
        Ok(s) => s,
        Err(Halt::Failed(e)) => return Err(LoginError::Wire(e)),
        Err(Halt::Short) => return Err(LoginError::Short),
    };
    if !success {
        return Err(LoginError::Refused(text));
    }
    match read_address(&mut buf) {
        Ok(ip) => Ok(Some(ip)),
        Err(_) => Ok(None),
    }
}

/// The data of a wait port: the port and, where there is one, the port for obfuscated
/// connections of the rotating kind.
pub open spec fn wait_port(port: u32, obfuscated_port: Option<u32>) -> Seq<u8> {
    match obfuscated_port {
        Some(p) => u32_bytes(port) + u32_bytes(1) + u32_bytes(p),
        None => u32_bytes(port),
    }
}

/// Writes the message that tells the server on which ports we listen.
pub fn wait_port_message(port: u32, obfuscated_port: Option<u32>) -> (message: Vec<u8>)
    ensures
        message@ == frame(2, wait_port(port, obfuscated_port)),
{
    let mut data = new_buffer();
    put_u32_le(&mut data, port);
    if let Some(p) = obfuscated_port {
        put_u32_le(&mut data, 1);
        put_u32_le(&mut data, p);
    }
    assert(contents(data) =~= wait_port(port, obfuscated_port));
    message_frame(2, as_slice(&data))
}

/// Writes the message that tells the server how much we share.
pub fn shared_counts_message(folders: u32, files: u32) -> (message: Vec<u8>)
    ensures
        message@ == frame(35, u32_bytes(folders) + u32_bytes(files)),
{
    let mut data = new_buffer();
    put_u32_le(&mut data, folders);
    put_u32_le(&mut data, files);
    assert(contents(data) =~= u32_bytes(folders) + u32_bytes(files));
    message_frame(35, as_slice(&data))
}

/// Writes the message that corrects what the server was told at login of how much we share:
/// nothing is to be told where we share no file.
pub fn recount_message(folders: u32, files: u32) -> (message: Option<Vec<u8>>)
    ensures
        if files == 0 {
            message is None
        } else {
            message matches Some(m) && m@ == frame(35, u32_bytes(folders) + u32_bytes(files))
        },
{
    if files > 0 {
        Some(shared_counts_message(folders, files))
    } else {
        None
    }
}

/// Writes the message that tells the server how fast we upload, in bytes per second cut to
/// 32 bits; nothing is told of no speed.
pub fn upload_speed_message(speed: u64) -> (message: Option<Vec<u8>>)
    ensures
        if speed == 0 {
            message is None
        } else {
            message matches Some(m) && m@ == frame(121, u32_bytes(length_field(speed as nat)))
        },
{
    if speed == 0 {
        return None;
    }
    let mut data = new_buffer();
    assert(speed as u32 == speed % 0x1_0000_0000) by (bit_vector);
    put_u32_le(&mut data, speed as u32);
    assert(contents(data) =~= u32_bytes(length_field(speed as nat)));
    Some(message_frame(121, as_slice(&data)))
}

/// Writes the message that starts a search.
pub fn search_message(token: u32, query: &str) -> (message: Vec<u8>)
    ensures
        message@ == frame(26, u32_bytes(token) + string_field(query@)),
{
    let mut data = new_buffer();
    put_u32_le(&mut data, token);
    write_string(&mut data, query);
    assert(contents(data) =~= u32_bytes(token) + string_field(query@));
    message_frame(26, as_slice(&data))
}

// ---------------------------------------------------------------------------
// Messages of peers
// ---------------------------------------------------------------------------
/// What the first five bytes of a message of a peer announce.
#[derive(Debug, Clone, Copy, PartialEq, Eq, Structural)]
pub enum PeerHead {
    /// An init message, of which so many bytes are to be discarded before the message.
    Init { discard: u32 },
    /// The message itself: three more bytes of its code, and so many bytes of data.
    Message { data_len: u32 },
}

/// What a length and the first byte after it announce. Init messages have a type of one
/// byte, 0 or 1, and are short.
pub open spec fn head_of(msg_len: u32, first: u8) -> PeerHead {
    if (first == 0 || first == 1) && 4 < msg_len < 200 {
        PeerHead::Init { discard: (msg_len - 1) as u32 }
    } else if msg_len >= 4 {
        PeerHead::Message { data_len: (msg_len - 4) as u32 }
    } else {
        PeerHead::Message { data_len: 0 }
    }
}

/// Reads the first five bytes of a message of a peer.
pub fn peer_head(head: &[u8]) -> (r: PeerHead)
    requires
        head.len() == 5,
    ensures
        r == head_of(u32_value(head@), head@[4]),
{
    assert(head@.skip(0) =~= head@);
    let msg_len: u32 = u32_at(head, 0);
    let first: u8 = head[4];
    if (first == 0 || first == 1) && msg_len > 4 && msg_len < 200 {
        PeerHead::Init { discard: msg_len - 1 }
    } else if msg_len >= 4 {
        PeerHead::Message { data_len: msg_len - 4 }
    } else {
        PeerHead::Message { data_len: 0 }
    }
}

/// Puts the code of a message together from its first byte and the three that follow.
pub fn peer_code(first: u8, rest: &[u8]) -> (code: u32)
    requires
        rest.len() == 3,
    ensures
        code == u32_value(seq![first] + rest@),
{
    let mut code: Vec<u8> = Vec::new();
    code.push(first);
    code.push(rest[0]);
    code.push(rest[1]);
    code.push(rest[2]);
    assert(code@ =~= seq![first] + rest@);
    assert(code@.skip(0) =~= code@);
    u32_at(code.as_slice(), 0)
}

/// Being the separator of folders, as a predicate.
pub open spec fn folder_mark() -> spec_fn(char) -> bool {
    |c: char| c == '/'
}

/// The last name of a path: trailing separators and `.` do not count.
pub open spec fn path_name(s: Seq<char>) -> Seq<char>
    decreases s.len(),
{
    if s.len() == 0 {
        s
    } else if s.last() == '/' || after_last(s, folder_mark()) == seq!['.'] {
        path_name(s.drop_last())
    } else {
        after_last(s, folder_mark())
    }
}

/// The extension of a file: what follows the last dot of its name, unless that dot is
/// missing or the first character.
pub open spec fn extension_of(path: Seq<char>) -> Seq<char> {
    let name = path_name(path);
    if last_position(name, '.') <= 0 {
        Seq::empty()
    } else {
        name.skip(last_position(name, '.') + 1)
    }
}

/// Where the last name of a path starts and ends.
fn name_bounds(chars: &Vec<char>) -> (r: (usize, usize))
    ensures
        r.0 <= r.1 <= chars.len(),
        chars@.subrange(r.0 as int, r.1 as int) == path_name(chars@),
{
    let mut end: usize = chars.len();
    assert(chars@.take(end as int) =~= chars@);
    while end > 0
        invariant
            end <= chars.len(),
            path_name(chars@.take(end as int)) == path_name(chars@),
        decreases end,
    {
        let ghost part = chars@.take(end as int);
        assert(part.drop_last() =~= chars@.take(end - 1));
        assert(part.last() == chars@[end - 1]);
        if chars[end - 1] != '/' {
            let start: usize = match last_of(chars, 0, end, '/', '/') {
                Some(i) => i + 1,
                None => 0,
            };
            proof {
                lemma_after_last(part, folder_mark(), start as int);
                assert(part.skip(start as int) =~= chars@.subrange(start as int, end as int));
                assert(part.skip(start as int).len() == end - start);
                assert(start < end ==> part.skip(start as int)[0] == chars@[start as int]);
            }
            if !(end - start == 1 && chars[start] == '.') {
                assert(part.skip(start as int) != seq!['.']);
                return (start, end);
            }
            assert(part.skip(start as int) =~= seq!['.']);
        }
        end = end - 1;
    }
    assert(chars@.subrange(0, 0) =~= chars@.take(0));
    (0, 0)
}

/// Gives the extension of a file.
pub fn file_extension(path: &str) -> (r: String)
    ensures
        r@ == extension_of(path@),
{
    let chars = chars_of(path);
    let (from, end) = name_bounds(&chars);
    let ghost name = chars@.subrange(from as int, end as int);
    match last_of(&chars, from, end, '.', '.') {
        Some(i) => {
            proof {
                lemma_last_position(name, '.', i - from);
            }
            if i == from {
                let none = String::new();
                assert(none@ =~= Seq::<char>::empty());
                none
            } else {
                assert(name.skip(i - from + 1) =~= chars@.subrange(i + 1, end as int));
                text_of(&chars, i + 1, end)
            }
        },
        None => {
            proof {
                lemma_last_position(name, '.', -1);
            }
            let none = String::new();
            assert(none@ =~= Seq::<char>::empty());
            none
        },
    }
}

/// A listed file as a file of a search result: a bitrate becomes its one attribute.
pub open spec fn converted_file(f: (Seq<char>, u64, Option<u32>)) -> SearchFileView {
    SearchFileView {
        code: 1,
        filename: f.0,
        size: f.1,
        extension: extension_of(f.0),
        attributes: match f.2 {
            Some(b) => seq![FileAttribute { attribute_type: 0, value: b }],
            None => Seq::empty(),
        },
    }
}

/// A search response as a search result of a peer.
pub open spec fn converted(
    username: Seq<char>,
    ip: Seq<char>,
    port: u32,
    response: ParsedView,
) -> SearchResultView {
    SearchResultView {
        username,
        files: response.files.map_values(|f: (Seq<char>, u64, Option<u32>)| converted_file(f)),
        has_slots: response.slot_free,
        avg_speed: response.avg_speed,
        queue_length: response.queue_length as u64,
        peer_ip: ip,
        peer_port: port,
    }
}

/// Converts one listed file.
fn convert_file(f: &(String, u64, Option<u32>)) -> (r: SearchFile)
    ensures
        r@ == converted_file((f.0@, f.1, f.2)),
{
    let mut attributes: Vec<FileAttribute> = Vec::new();
    if let Some(b) = f.2 {
        attributes.push(FileAttribute { attribute_type: 0, value: b });
    }
    assert(attributes@ =~= converted_file((f.0@, f.1, f.2)).attributes);
    SearchFile {
        code: 1,
        filename: f.0.clone(),
        size: f.1,
        extension: file_extension(f.0.as_str()),
        attributes,
    }
}

/// Convert ParsedSearchResponse to SearchResult
pub fn convert_response(
    username: &str,
    ip: &str,
    port: u32,
    response: &ParsedSearchResponse,
) -> (r: SearchResult)
    ensures
        r@ == converted(username@, ip@, port, response@),
        r.username@ == username@,
        r.peer_ip@ == ip@,
        r.peer_port == port,
        r.has_slots == response.slot_free,
        r.avg_speed == response.avg_speed,
        r.queue_length == response.queue_length,
        r.files@.len() == response.files@.len(),
        forall|i: int|
            #![trigger r.files@[i]]
            0 <= i < r.files@.len() ==> tells(r.files@[i], response.files@[i]),
{
    let mut files: Vec<SearchFile> = Vec::new();
    let mut i: usize = 0;
    let ghost all = response@.files;
    let ghost goal = converted(username@, ip@, port, response@).files;
    while i < response.files.len()
        invariant
            i <= response.files.len(),
            all == listed(response.files@),
            goal == all.map_values(|f: (Seq<char>, u64, Option<u32>)| converted_file(f)),
            file_views(files@) == goal.take(i as int),
        decreases response.files.len() - i,
    {
        let ghost before = files@;
        let file = convert_file(&response.files[i]);
        files.push(file);
        assert(file_views(files@) =~= file_views(before).push(file@));
        assert(goal.take(i + 1) =~= goal.take(i as int).push(goal[i as int]));
        i = i + 1;
    }
    assert(goal.take(i as int) =~= goal);
    proof {
        law_result_tells_what_the_peer_told(username@, ip@, port, response@);
        assert forall|k: int| #![trigger files@[k]] 0 <= k < files@.len() implies tells(
            files@[k],
            response.files@[k],
        ) by {
            assert(file_views(files@)[k] == files@[k]@);
            assert(response@.files[k].0 == response.files@[k].0@);
        }
    }
    SearchResult {
        username: username.to_owned(),
        files,
        has_slots: response.slot_free,
        avg_speed: response.avg_speed,
        queue_length: response.queue_length as u64,
        peer_ip: ip.to_owned(),
        peer_port: port,
    }
}

/// A file of a search result has the name, the size and the bitrate of a listed file, and the
/// extension of its name. The bitrate is its only attribute.
pub open spec fn tells(file: SearchFile, told: (String, u64, Option<u32>)) -> bool {
    &&& file.code == 1
    &&& file.filename@ == told.0@
    &&& file.size == told.1
    &&& first_attribute(file.attributes@, 0) == told.2
    &&& file.attributes@.len() == if told.2 is Some {
        1nat
    } else {
        0nat
    }
    &&& file.extension@ == extension_of(told.0@)
}

/// A search result tells what the peer told: whether a slot is free, the speed, the length of
/// the queue, and of every file its name, its size and its bitrate. The peer is the one that
/// was connected to.
pub proof fn law_result_tells_what_the_peer_told(
    username: Seq<char>,
    ip: Seq<char>,
    port: u32,
    response: ParsedView,
)
    ensures
        ({
            let result = converted(username, ip, port, response);
            &&& result.username == username
            &&& result.peer_ip == ip
            &&& result.peer_port == port
            &&& result.has_slots == response.slot_free
            &&& result.avg_speed == response.avg_speed
            &&& result.queue_length == response.queue_length
            &&& result.files.len() == response.files.len()
            &&& forall|i: int|
                0 <= i < result.files.len() ==> {
                    let f = #[trigger] result.files[i];
                    &&& f.code == 1
                    &&& f.filename == response.files[i].0
                    &&& f.size == response.files[i].1
                    &&& first_attribute(f.attributes, 0) == response.files[i].2
                    &&& f.attributes.len() == if response.files[i].2 is Some {
                        1nat
                    } else {
                        0nat
                    }
                    &&& f.extension == extension_of(response.files[i].0)
                }
        }),
{
    let result = converted(username, ip, port, response);
    assert forall|i: int| 0 <= i < result.files.len() implies first_attribute(
        (#[trigger] result.files[i]).attributes,
        0,
    ) == response.files[i].2 by {
        let f = result.files[i];
        assert(f == converted_file(response.files[i]));
    }
}

/// The host of an address: what precedes the first colon.
pub open spec fn host_of(addr: Seq<char>) -> Seq<char>
    decreases addr.len(),
{
    if addr.len() == 0 || addr[0] == ':' {
        Seq::empty()
    } else {
        seq![addr[0]] + host_of(addr.skip(1))
    }
}

/// Gives the host of an address.
pub fn address_host(addr: &str) -> (r: String)
    ensures
        r@ == host_of(addr@),
{
    let chars = chars_of(addr);
    let mut n: usize = 0;
    assert(chars@.take(0) + host_of(chars@.skip(0)) =~= host_of(chars@)) by {
        assert(chars@.skip(0) =~= chars@);
    }
    while n < chars.len() && chars[n] != ':'
        invariant
            n <= chars.len(),
            chars@.take(n as int) + host_of(chars@.skip(n as int)) == host_of(chars@),
        decreases chars.len() - n,
    {
        assert(chars@.skip(n as int)[0] == chars@[n as int]);
        assert(chars@.skip(n as int).skip(1) =~= chars@.skip(n + 1));
        assert(chars@.take(n + 1) + host_of(chars@.skip(n + 1)) =~= chars@.take(n as int) + (
        seq![chars@[n as int]] + host_of(chars@.skip(n + 1))));
        n = n + 1;
    }
    assert(n < chars.len() ==> chars@.skip(n as int)[0] == chars@[n as int]);
    assert(chars@.take(n as int) + Seq::<char>::empty() =~= chars@.subrange(0, n as int));
    text_of(&chars, 0, n)
}

/// What a message of a peer asks of us.
#[derive(Debug, Clone)]
pub enum PeerRequest {
    /// A search result, for the search with the token.
    Found { token: u32, result: SearchResult },
    /// Our list of shared files.
    SharedFiles,
    /// A search in our files.
    Search { token: u32, query: String },
    /// An upload of a file.
    Queue { filename: String },
    /// The place in our queue.
    Place { filename: String },
    /// An upload of a file, asked for as a transfer with a token.
    LegacyQueue { token: u32, filename: String },
    /// Who we are.
    UserInfo,
    /// Nothing that we answer.
    Nothing,
    /// A search result that cannot be read.
    Unreadable(WireError),
    /// A search result in which a field of fixed size reaches past the end.
    Short,
}

/// The same with texts as character sequences.
#[verifier::ext_equal]
pub enum PeerRequestView {
    Found { token: u32, result: SearchResultView },
    SharedFiles,
    Search { token: u32, query: Seq<char> },
    Queue { filename: Seq<char> },
    Place { filename: Seq<char> },
    LegacyQueue { token: u32, filename: Seq<char> },
    UserInfo,
    Nothing,
    Unreadable(WireError),
    Short,
}

impl View for PeerRequest {
    type V = PeerRequestView;

    open spec fn view(&self) -> PeerRequestView {
        match *self {
            PeerRequest::Found { token, result } => PeerRequestView::Found {
                token,
                result: result@,
            },
            PeerRequest::SharedFiles => PeerRequestView::SharedFiles,
            PeerRequest::Search { token, query } => PeerRequestView::Search {
                token,
                query: query@,
            },
            PeerRequest::Queue { filename } => PeerRequestView::Queue { filename: filename@ },
            PeerRequest::Place { filename } => PeerRequestView::Place { filename: filename@ },
            PeerRequest::LegacyQueue { token, filename } => PeerRequestView::LegacyQueue {
                token,
                filename: filename@,
            },
            PeerRequest::UserInfo => PeerRequestView::UserInfo,
            PeerRequest::Nothing => PeerRequestView::Nothing,
            PeerRequest::Unreadable(e) => PeerRequestView::Unreadable(e),
            PeerRequest::Short => PeerRequestView::Short,
        }
    }
}

/// A search result of a peer at an address, from the decompressed data of its message.
pub open spec fn result_request(
    plain: Seq<u8>,
    peer_username: Seq<char>,
    peer_addr: Seq<char>,
) -> PeerRequestView {
    match outcome(search_response(plain)) {
        Ok(response) => PeerRequestView::Found {
            token: response.token,
            result: converted(peer_username, host_of(peer_addr), 0, response),
        },
        Err(Halt::Failed(e)) => PeerRequestView::Unreadable(e),
        Err(Halt::Short) => PeerRequestView::Short,
    }
}

/// The name of a file in the data of a message, where it can be read.
pub open spec fn named_file(data: Seq<u8>) -> Option<Seq<char>> {
    match step_string(data) {
        Step::Done(filename, rest) => Some(filename),
        _ => None,
    }
}

/// What a message of a peer asks of us:
/// - code 9: a search result
/// - code 4: our file list
/// - code 8: a search in our files
/// - code 43: an upload
/// - code 51: the place in our queue
/// - code 40: a transfer, which with direction 0 is an upload asked for in the old way
/// - code 15: who we are
pub open spec fn request_of(
    code: u32,
    data: Seq<u8>,
    peer_username: Seq<char>,
    peer_addr: Seq<char>,
) -> PeerRequestView {
    if code == 9 {
        result_request(unpacked(data), peer_username, peer_addr)
    } else if code == 4 {
        PeerRequestView::SharedFiles
    } else if code == 8 && data.len() >= 8 {
        match named_file(data.skip(4)) {
            Some(query) => PeerRequestView::Search { token: u32_value(data), query },
            None => PeerRequestView::Nothing,
        }
    } else if code == 43 {
        match named_file(data) {
            Some(filename) => PeerRequestView::Queue { filename },
            None => PeerRequestView::Nothing,
        }
    } else if code == 51 {
        match named_file(data) {
            Some(filename) => PeerRequestView::Place { filename },
            None => PeerRequestView::Nothing,
        }
    } else if code == 40 && data.len() >= 8 {
        match named_file(data.skip(4).skip(4)) {
            Some(filename) => if u32_value(data) == 0 {
                PeerRequestView::LegacyQueue { token: u32_value(data.skip(4)), filename }
            } else {
                PeerRequestView::Nothing
            },
            None => PeerRequestView::Nothing,
        }
    } else if code == 15 {
        PeerRequestView::UserInfo
    } else {
        PeerRequestView::Nothing
    }
}

/// Reads the name of a file from the data of a message.
fn read_name(data: &[u8]) -> (r: Option<String>)
    ensures
        opt_text(r) == named_file(data@),
{
    let mut buf = buffer_of(data);
    match read_string(&mut buf) {
        Ok(s) => Some(s),
        Err(_) => None,
    }
}

/// Makes a search result of the decompressed data of a message.
pub fn result_of_peer(plain: &[u8], peer_username: &str, peer_addr: &str) -> (r: PeerRequest)
    ensures
        r@ == result_request(plain@, peer_username@, peer_addr@),
{
    match try_parse_file_search_response(plain) {
        Ok(response) => PeerRequest::Found {
            token: response.token,
            result: convert_response(
                peer_username,
                address_host(peer_addr).as_str(),
                0,
                &response,
            ),
        },
        Err(Halt::Failed(e)) => PeerRequest::Unreadable(e),
        Err(Halt::Short) => PeerRequest::Short,
    }
}

/// Reads what a message of a peer asks of us.
pub fn peer_request(
    code: u32,
    data: Vec<u8>,
    peer_username: &str,
    peer_addr: &str,
) -> (r: PeerRequest)
    ensures
        r@ == request_of(code, data@, peer_username@, peer_addr@),
{
    if code == 9 {
        let plain = unpack(data);
        result_of_peer(plain.as_slice(), peer_username, peer_addr)
    } else if code == 4 {
        PeerRequest::SharedFiles
    } else if code == 8 && data.len() >= 8 {
        let mut buf = buffer_of(data.as_slice());
        match (read_u32(&mut buf), read_string(&mut buf)) {
            (Ok(token), Ok(query)) => PeerRequest::Search { token, query },
            _ => PeerRequest::Nothing,
        }
    } else if code == 43 {
        match read_name(data.as_slice()) {
            Some(filename) => PeerRequest::Queue { filename },
            None => PeerRequest::Nothing,
        }
    } else if code == 51 {
        match read_name(data.as_slice()) {
            Some(filename) => PeerRequest::Place { filename },
            None => PeerRequest::Nothing,
        }
    } else if code == 40 && data.len() >= 8 {
        let mut buf = buffer_of(data.as_slice());
        match (read_u32(&mut buf), read_u32(&mut buf), read_string(&mut buf)) {
            (Ok(direction), Ok(token), Ok(filename)) => {
                if direction == 0 {
                    PeerRequest::LegacyQueue { token, filename }
                } else {
                    PeerRequest::Nothing
                }
            },
            _ => PeerRequest::Nothing,
        }
    } else if code == 15 {
        PeerRequest::UserInfo
    } else {
        PeerRequest::Nothing
    }
}

// ---------------------------------------------------------------------------
// Answers to peers
// ---------------------------------------------------------------------------
/// Answers a request for our list of shared files: the compressed list, or an empty one
/// where we share nothing.
pub fn shared_files_reply(list: Option<&[u8]>) -> (message: Vec<u8>)
    ensures
        message@ == frame(
            5,
            match list {
                Some(compressed) => compressed@,
                None => u32_bytes(0),
            },
        ),
{
    match list {
        Some(compressed) => message_frame(5, compressed),
        None => {
            let mut data = new_buffer();
            put_u32_le(&mut data, 0);
            assert(contents(data) =~= u32_bytes(0));
            message_frame(5, as_slice(&data))
        },
    }
}

/// What became of a request to queue an upload.
#[derive(Debug, Clone)]
pub enum QueueOutcome {
    /// Queued at a place.
    Queued(u32),
    /// Rejected with a reason.
    Rejected(String),
    /// We do not upload.
    Disabled,
}

/// The answer to a request to queue an upload: the place in the queue (code 44), or the
/// reason for refusing (code 50).
pub open spec fn queue_answer(filename: Seq<char>, outcome: QueueOutcome) -> Seq<u8> {
    match outcome {
        QueueOutcome::Queued(position) => frame(44, string_field(filename) + u32_bytes(position)),
        QueueOutcome::Rejected(reason) => frame(50, string_field(filename) + string_field(reason@)),
        QueueOutcome::Disabled => frame(
            50,
            string_field(filename) + string_field("Sharing disabled"@),
        ),
    }
}

/// Writes a refusal to upload.
fn refusal(filename: &str, reason: &str) -> (message: Vec<u8>)
    ensures
        message@ == frame(50, string_field(filename@) + string_field(reason@)),
{
    let mut data = new_buffer();
    write_string(&mut data, filename);
    write_string(&mut data, reason);
    assert(contents(data) =~= string_field(filename@) + string_field(reason@));
    message_frame(50, as_slice(&data))
}

/// Answers a request for the place in our queue; a file that is not queued has place 0.
pub fn place_reply(filename: &str, position: Option<u32>) -> (message: Vec<u8>)
    ensures
        message@ == frame(
            44,
            string_field(filename@) + u32_bytes(
                match position {
                    Some(p) => p,
                    None => 0,
                },
            ),
        ),
{
    let place: u32 = match position {
        Some(p) => p,
        None => 0,
    };
    let mut data = new_buffer();
    write_string(&mut data, filename);
    put_u32_le(&mut data, place);
    assert(contents(data) =~= string_field(filename@) + u32_bytes(place));
    message_frame(44, as_slice(&data))
}

/// Answers a request to queue an upload.
pub fn queue_reply(filename: &str, outcome: &QueueOutcome) -> (message: Vec<u8>)
    ensures
        message@ == queue_answer(filename@, *outcome),
{
    match outcome {
        QueueOutcome::Queued(position) => place_reply(filename, Some(*position)),
        QueueOutcome::Rejected(reason) => refusal(filename, reason.as_str()),
        QueueOutcome::Disabled => refusal(filename, "Sharing disabled"),
    }
}

/// The answer to a transfer request of the old kind: it is never allowed at once; the
/// reason is that it is queued, or why not. Where we do not upload there is no answer.
pub open spec fn legacy_answer(token: u32, outcome: QueueOutcome) -> Option<Seq<u8>> {
    match outcome {
        QueueOutcome::Queued(_) => Some(
            frame(41, u32_bytes(token).push(0) + string_field("Queued"@)),
        ),
        QueueOutcome::Rejected(reason) => Some(
            frame(41, u32_bytes(token).push(0) + string_field(reason@)),
        ),
        QueueOutcome::Disabled => None,
    }
}

/// Writes a TransferReply that does not allow the transfer.
fn transfer_refusal(token: u32, reason: &str) -> (message: Vec<u8>)
    ensures
        message@ == frame(41, u32_bytes(token).push(0) + string_field(reason@)),
{
    let mut data = new_buffer();
    put_u32_le(&mut data, token);
    put_u8(&mut data, 0);
    write_string(&mut data, reason);
    assert(contents(data) =~= u32_bytes(token).push(0) + string_field(reason@));
    message_frame(41, as_slice(&data))
}

/// Answers a transfer request of the old kind.
pub fn legacy_reply(token: u32, outcome: &QueueOutcome) -> (message: Option<Vec<u8>>)
    ensures
        match message {
            Some(m) => legacy_answer(token, *outcome) == Some(m@),
            None => legacy_answer(token, *outcome) is None,
        },
{
    match outcome {
        QueueOutcome::Queued(_) => Some(transfer_refusal(token, "Queued")),
        QueueOutcome::Rejected(reason) => Some(transfer_refusal(token, reason.as_str())),
        QueueOutcome::Disabled => None,
    }
}

/// How we describe ourselves.
pub open spec fn description(files: u64, folders: u64) -> Seq<char> {
    "Rinse - Soulseek client\nSharing "@ + decimal(files as nat) + " files in "@ + decimal(
        folders as nat,
    ) + " folders"@
}

/// The data of a user info: description, no picture, no uploads counted, the length of
/// the queue, whether a slot is free, and that everyone may ask for uploads.
pub open spec fn user_info(files: u64, folders: u64, queue_size: u32, slots_free: bool) -> Seq<u8> {
    string_field(description(files, folders)).push(0) + u32_bytes(0) + u32_bytes(queue_size) + seq![
        if slots_free {
            1u8
        } else {
            0u8
        },
    ] + u32_bytes(1)
}

/// Answers a request for our user info.
pub fn user_info_reply(files: u64, folders: u64, queue_size: u32, slots_free: bool) -> (message:
    Vec<u8>)
    ensures
        message@ == frame(16, user_info(files, folders, queue_size, slots_free)),
{
    let mut text = "Rinse - Soulseek client\nSharing ".to_owned();
    push_decimal(&mut text, files);
    push_text(&mut text, " files in ");
    push_decimal(&mut text, folders);
    push_text(&mut text, " folders");
    let mut data = new_buffer();
    write_string(&mut data, text.as_str());
    put_u8(&mut data, 0);
    put_u32_le(&mut data, 0);
    put_u32_le(&mut data, queue_size);
    put_u8(
        &mut data,
        if slots_free {
            1
        } else {
            0
        },
    );
    put_u32_le(&mut data, 1);
    assert(contents(data) =~= user_info(files, folders, queue_size, slots_free));
    message_frame(16, as_slice(&data))
}

/// A request to queue an upload is always answered, under the name that was asked for: a
/// reader of the answer finds that name. Names of four gigabytes or more do not fit.
pub proof fn law_queue_request_is_answered(filename: Seq<char>, outcome: QueueOutcome)
    requires
        encode_utf8(filename).len() < 0x1_0000_0000,
    ensures
        named_file(queue_answer(filename, outcome).skip(8)) == Some(filename),
        outcome is Queued <==> u32_value(queue_answer(filename, outcome).skip(4)) == 44,
        !(outcome is Queued) <==> u32_value(queue_answer(filename, outcome).skip(4)) == 50,
{
    let (code, tail) = match outcome {
        QueueOutcome::Queued(position) => (44u32, u32_bytes(position)),
        QueueOutcome::Rejected(reason) => (50u32, string_field(reason@)),
        QueueOutcome::Disabled => (50u32, string_field("Sharing disabled"@)),
    };
    let data = string_field(filename) + tail;
    let whole = frame(code, data);
    crate::wire::law_string_round_trip(filename, tail);
    crate::wire::lemma_u32_round_trip(code, data);
    assert(whole.skip(8) =~= data);
    assert(whole.skip(4) =~= u32_bytes(code) + data);
}

/// A search response of a peer is delivered to the search that it answers, as a result of
/// that peer at the host of its address: with a free slot exactly where the byte that the
/// peer sent for it is not zero, with its speed and the length of its queue, and with every
/// file that it listed.
#[verifier::spinoff_prover]
pub proof fn law_search_response_is_delivered(
    username: Seq<char>,
    token: u32,
    files: Seq<SearchFileView>,
    slot: u8,
    avg_speed: u32,
    queue_length: u32,
    rest: Seq<u8>,
    peer_username: Seq<char>,
    peer_addr: Seq<char>,
)
    requires
        encode_utf8(username).len() < 0x1_0000_0000,
        files.len() <= 100,
        forall|i: int| 0 <= i < files.len() ==> file_fits(#[trigger] files[i]),
    ensures
        ({
            let plain = search_bytes(
                username,
                token,
                files,
                seq![slot] + u32_bytes(avg_speed) + u32_bytes(queue_length) + rest,
            );
            &&& result_request(plain, peer_username, peer_addr) matches PeerRequestView::Found {
                token: t,
                result,
            }
            &&& t == token
            &&& result.has_slots == (slot != 0)
            &&& result.avg_speed == avg_speed
            &&& result.queue_length == queue_length
            &&& result.username == peer_username
            &&& result.peer_ip == host_of(peer_addr)
            &&& result.peer_port == 0
            &&& result.files.len() == files.len()
            &&& forall|i: int|
                0 <= i < files.len() ==> (#[trigger] result.files[i]).filename == files[i].filename
                    && result.files[i].size == files[i].size && first_attribute(
                    result.files[i].attributes,
                    0,
                ) == told_bitrate(files[i].attributes)
        }),
{
    law_search_response_is_read(username, token, files, slot, avg_speed, queue_length, rest);
    let response = ParsedView {
        username,
        token,
        files: listings(files),
        slot_free: slot != 0,
        avg_speed,
        queue_length,
    };
    law_result_tells_what_the_peer_told(peer_username, host_of(peer_addr), 0, response);
}

/// A message with the code of a search response is read as one, from its decompressed data.
pub proof fn law_result_comes_with_its_code(
    data: Seq<u8>,
    peer_username: Seq<char>,
    peer_addr: Seq<char>,
)
    ensures
        request_of(9, data, peer_username, peer_addr) == result_request(
            unpacked(data),
            peer_username,
            peer_addr,
        ),
        match outcome(search_response(unpacked(data))) {
            Ok(response) => request_of(9, data, peer_username, peer_addr) is Found,
            Err(Halt::Failed(e)) => request_of(9, data, peer_username, peer_addr)
                == PeerRequestView::Unreadable(e),
            Err(Halt::Short) => request_of(9, data, peer_username, peer_addr)
                == PeerRequestView::Short,
        },
{
}

/// The requests of peers by their codes: for our files, for who we are and for a place in our
/// queue. A transfer in the other direction, a request that is cut off and a message with a
/// code that we do not answer ask for nothing.
pub proof fn law_requests_go_by_their_codes(
    code: u32,
    data: Seq<u8>,
    filename: Seq<char>,
    direction: u32,
    token: u32,
    rest: Seq<u8>,
    username: Seq<char>,
    addr: Seq<char>,
)
    requires
        encode_utf8(filename).len() < 0x1_0000_0000,
    ensures
        request_of(4, data, username, addr) == PeerRequestView::SharedFiles,
        request_of(15, data, username, addr) == PeerRequestView::UserInfo,
        request_of(51, string_field(filename) + rest, username, addr) == (PeerRequestView::Place {
            filename,
        }),
        request_of(43, string_field(filename) + rest, username, addr) == (PeerRequestView::Queue {
            filename,
        }),
        direction != 0 ==> request_of(
            40,
            u32_bytes(direction) + u32_bytes(token) + string_field(filename),
            username,
            addr,
        ) == PeerRequestView::Nothing,
        data.len() < 8 ==> request_of(8, data, username, addr) == PeerRequestView::Nothing
            && request_of(40, data, username, addr) == PeerRequestView::Nothing,
        code != 4 && code != 8 && code != 9 && code != 15 && code != 40 && code != 43 && code != 51
            ==> request_of(code, data, username, addr) == PeerRequestView::Nothing,
{
    law_string_round_trip(filename, rest);
    let tail = u32_bytes(token) + string_field(filename);
    lemma_u32_round_trip(direction, tail);
    crate::wire::lemma_join3(u32_bytes(direction), u32_bytes(token), string_field(filename));
}

/// The message that logs a user in has the name and the password as they are, the digest of
/// the two together, and the version of the protocol.
pub proof fn law_login_tells_who_we_are(username: Seq<char>, password: Seq<char>)
    ensures
        login_view(username, password) matches ServerMessageView::Login {
            username: u,
            password: p,
            version,
            md5_hash,
            minor_version,
        } && u == username && p == password && version == 160 && minor_version == 1 && md5_hash
            == md5_hex(encode_utf8(username + password)),
{
}

/// A login that the server refuses fails with the reason that it gives. One that it grants
/// gives our external address, where the server tells it. A message of another code is no
/// answer, and one that is cut off is an error.
#[verifier::spinoff_prover]
pub proof fn law_login_answer_is_read(
    granted: u8,
    text: Seq<char>,
    address: Seq<u8>,
    rest: Seq<u8>,
    short: Seq<u8>,
    code: u32,
    data: Seq<u8>,
)
    requires
        encode_utf8(text).len() < 0x1_0000_0000,
        granted != 0,
        address.len() == 4,
        short.len() < 4,
        code != 1,
    ensures
        login_outcome(1, seq![0u8] + string_field(text) + rest) == Err::<
            Option<Seq<char>>,
            LoginErrorView,
        >(LoginErrorView::Refused(text)),
        login_outcome(1, seq![granted] + string_field(text) + address + rest) == Ok::<
            Option<Seq<char>>,
            LoginErrorView,
        >(Some(dotted(address[3], address[2], address[1], address[0]))),
        login_outcome(1, seq![granted] + string_field(text) + short) == Ok::<
            Option<Seq<char>>,
            LoginErrorView,
        >(None),
        login_outcome(code, data) == Ok::<Option<Seq<char>>, LoginErrorView>(None),
        login_outcome(1, Seq::empty()) == Err::<Option<Seq<char>>, LoginErrorView>(
            LoginErrorView::Short,
        ),
        login_outcome(1, seq![granted]) == Err::<Option<Seq<char>>, LoginErrorView>(
            LoginErrorView::Wire(WireError::StringLength),
        ),
{
    law_string_round_trip(text, rest);
    law_string_round_trip(text, short);
    law_string_round_trip(text, address + rest);
    let refused = seq![0u8] + string_field(text) + rest;
    let given = seq![granted] + string_field(text) + address + rest;
    let bare = seq![granted] + string_field(text) + short;
    crate::wire::lemma_join3(seq![0u8], string_field(text), rest);
    crate::wire::lemma_join4(seq![granted], string_field(text), address, rest);
    crate::wire::lemma_join3(seq![granted], string_field(text), short);
    assert(refused.skip(1) =~= string_field(text) + rest);
    assert(given.skip(1) =~= string_field(text) + (address + rest));
    assert(bare.skip(1) =~= string_field(text) + short);
    crate::protocol::messages::lemma_four_bytes(address, rest);
}

/// The server is told the port, and the port for obfuscated connections with its kind where
/// there is one.
pub proof fn law_wait_port_holds_the_ports(port: u32, obfuscated_port: Option<u32>)
    ensures
        u32_value(wait_port(port, obfuscated_port)) == port,
        obfuscated_port is None ==> wait_port(port, obfuscated_port).len() == 4,
        obfuscated_port matches Some(p) ==> {
            let data = wait_port(port, obfuscated_port);
            &&& data.len() == 12
            &&& u32_value(data.skip(4)) == 1
            &&& u32_value(data.skip(8)) == p
        },
{
    let none = Seq::<u8>::empty();
    match obfuscated_port {
        Some(p) => {
            let data = u32_bytes(port) + u32_bytes(1) + u32_bytes(p);
            let tail = u32_bytes(1) + u32_bytes(p);
            crate::wire::lemma_join3(u32_bytes(port), u32_bytes(1), u32_bytes(p));
            lemma_u32_round_trip(port, tail);
            lemma_u32_round_trip(1, u32_bytes(p));
            lemma_u32_round_trip(p, none);
            crate::wire::lemma_append_nothing(u32_bytes(p));
            assert(data.skip(8) =~= data.skip(4).skip(4));
        },
        None => {
            lemma_u32_round_trip(port, none);
            crate::wire::lemma_append_nothing(u32_bytes(port));
        },
    }
}

/// A short message whose first byte is 0 or 1 is an init message, and no other one is. What
/// is read after the five bytes is what the length announces: of an init message all but its
/// type, of another one all but its code.
pub proof fn law_peer_head_tells_what_follows(msg_len: u32, first: u8)
    ensures
        head_of(msg_len, first) is Init <==> first <= 1 && 5 <= msg_len <= 199,
        head_of(msg_len, first) matches PeerHead::Init { discard } ==> 1 + discard == msg_len,
        head_of(msg_len, first) matches PeerHead::Message { data_len } ==> if msg_len >= 4 {
            4 + data_len == msg_len
        } else {
            data_len == 0
        },
{
}

/// The host of an address is what stands before its first colon, or all of it.
pub proof fn law_host_stands_before_the_colon(host: Seq<char>, rest: Seq<char>)
    requires
        forall|i: int| 0 <= i < host.len() ==> #[trigger] host[i] != ':',
    ensures
        host_of(host + ":"@ + rest) == host,
        host_of(host) == host,
    decreases host.len(),
{
    reveal_strlit(":");
    let whole = host + ":"@ + rest;
    if host.len() > 0 {
        let later = host.skip(1);
        assert forall|i: int| 0 <= i < later.len() implies #[trigger] later[i] != ':' by {
            assert(later[i] == host[i + 1]);
        }
        law_host_stands_before_the_colon(later, rest);
        assert(whole.skip(1) =~= later + ":"@ + rest);
        assert(whole[0] == host[0]);
        assert(seq![host[0]] + later =~= host);
    } else {
        assert(whole[0] == ':');
        assert(host =~= Seq::<char>::empty());
    }
}

/// The name of a file in a folder is its last name.
proof fn lemma_last_name(folders: Seq<char>, name: Seq<char>)
    requires
        folders.len() > 0 ==> folders.last() == '/',
        name.len() > 0,
        name != seq!['.'],
        forall|i: int| 0 <= i < name.len() ==> #[trigger] name[i] != '/',
    ensures
        path_name(folders + name) == name,
{
    let whole = folders + name;
    let p = folder_mark();
    assert forall|j: int| folders.len() <= j < whole.len() implies !p(whole[j]) by {
        assert(whole[j] == name[j - folders.len()]);
    }
    lemma_after_last(whole, p, folders.len() as int);
    assert(whole.skip(folders.len() as int) =~= name);
    assert(whole.last() == name[name.len() - 1]);
}

/// The extension of a file is what follows the last dot of its name, in whatever folder it
/// is. A name without a dot has none, and neither has one whose only dot is its first
/// character. A separator at the end does not count.
#[verifier::spinoff_prover]
pub proof fn law_extension_follows_the_last_dot(
    folders: Seq<char>,
    stem: Seq<char>,
    extension: Seq<char>,
)
    requires
        folders.len() > 0 ==> folders.last() == '/',
        stem.len() > 0,
        forall|i: int| 0 <= i < stem.len() ==> #[trigger] stem[i] != '/',
        forall|i: int|
            0 <= i < extension.len() ==> #[trigger] extension[i] != '/' && extension[i] != '.',
    ensures
        extension_of(folders + (stem + "."@ + extension)) == extension,
        (forall|i: int| 0 <= i < stem.len() ==> #[trigger] stem[i] != '.') ==> extension_of(
            folders + stem,
        ).len() == 0,
        extension.len() > 0 ==> extension_of(folders + ("."@ + extension)).len() == 0,
        extension_of(folders + (stem + "."@ + extension) + "/"@) == extension,
{
    reveal_strlit(".");
    reveal_strlit("/");
    let name = stem + "."@ + extension;
    let n = stem.len() as int;
    assert(name[n] == '.');
    assert forall|i: int| 0 <= i < name.len() implies #[trigger] name[i] != '/' by {
        if i < n {
            assert(name[i] == stem[i]);
        } else if i > n {
            assert(name[i] == extension[i - n - 1]);
        }
    }
    assert(name.len() >= 2);
    assert(seq!['.'].len() == 1);
    lemma_last_name(folders, name);
    assert forall|j: int| n < j < name.len() implies name[j] != '.' by {
        assert(name[j] == extension[j - n - 1]);
    }
    lemma_last_position(name, '.', n);
    assert(name.skip(n + 1) =~= extension);
    if forall|i: int| 0 <= i < stem.len() ==> #[trigger] stem[i] != '.' {
        assert(stem[0] != '.');
        lemma_last_name(folders, stem);
        lemma_last_position(stem, '.', -1);
    }
    if extension.len() > 0 {
        let hidden = "."@ + extension;
        assert forall|i: int| 0 <= i < hidden.len() implies #[trigger] hidden[i] != '/' by {
            if i > 0 {
                assert(hidden[i] == extension[i - 1]);
            }
        }
        assert(hidden.len() >= 2);
        lemma_last_name(folders, hidden);
        assert forall|j: int| 0 < j < hidden.len() implies hidden[j] != '.' by {
            assert(hidden[j] == extension[j - 1]);
        }
        lemma_last_position(hidden, '.', 0);
    }
    let closed = folders + name + "/"@;
    assert(closed.last() == '/');
    assert(closed.drop_last() =~= folders + name);
    assert(path_name(closed) == path_name(folders + name));
}

/// A transfer request of the old kind is answered under its token, and never with a yes;
/// where we do not upload it is not answered.
#[verifier::spinoff_prover]
pub proof fn law_old_request_is_never_allowed(token: u32, outcome: QueueOutcome)
    ensures
        legacy_answer(token, outcome) is None <==> outcome is Disabled,
        legacy_answer(token, outcome) matches Some(answer) ==> {
            &&& u32_value(answer.skip(4)) == 41
            &&& u32_value(answer.skip(8)) == token
            &&& answer[12] == 0
        },
{
    let reason = match outcome {
        QueueOutcome::Rejected(reason) => reason@,
        _ => "Queued"@,
    };
    let data = u32_bytes(token).push(0) + string_field(reason);
    let whole = frame(41, data);
    lemma_u32_round_trip(41, data);
    assert(whole.skip(4) =~= u32_bytes(41) + data);
    lemma_u32_round_trip(token, seq![0u8] + string_field(reason));
    assert(data =~= u32_bytes(token) + (seq![0u8] + string_field(reason)));
    assert(whole.skip(8) =~= data);
    assert(whole[12] == data[4]);
}

/// What we tell of ourselves: the description with the numbers of files and folders, no
/// picture, no uploads, the length of our queue, whether a slot is free, and that everyone
/// may ask.
#[verifier::spinoff_prover]
pub proof fn law_user_info_tells_our_state(
    files: u64,
    folders: u64,
    queue_size: u32,
    slots_free: bool,
)
    requires
        encode_utf8(description(files, folders)).len() < 0x1_0000_0000,
    ensures
        description(files, folders) == "Rinse - Soulseek client\nSharing "@ + decimal(
            files as nat,
        ) + " files in "@ + decimal(folders as nat) + " folders"@,
        step_string(user_info(files, folders, queue_size, slots_free)) matches Step::Done(
            text,
            rest,
        ) && {
            &&& text == description(files, folders)
            &&& rest.len() == 14
            &&& rest[0] == 0
            &&& u32_value(rest.skip(1)) == 0
            &&& u32_value(rest.skip(5)) == queue_size
            &&& slots_free ==> rest[9] == 1
            &&& !slots_free ==> rest[9] == 0
            &&& u32_value(rest.skip(10)) == 1
        },
{
    let text = description(files, folders);
    let free: u8 = if slots_free {
        1
    } else {
        0
    };
    let d = seq![free] + u32_bytes(1);
    let c = u32_bytes(queue_size) + d;
    let rest = seq![0u8] + (u32_bytes(0) + c);
    lemma_u32_round_trip(0, c);
    lemma_u32_round_trip(queue_size, d);
    lemma_u32_round_trip(1, Seq::empty());
    crate::wire::lemma_append_nothing(u32_bytes(1));
    lemma_info_parts(string_field(text), u32_bytes(0), u32_bytes(queue_size), free, u32_bytes(1));
    law_string_round_trip(text, rest);
}

/// The parts of a user info, taken from the back.
proof fn lemma_info_parts(text: Seq<u8>, a: Seq<u8>, b: Seq<u8>, free: u8, c: Seq<u8>)
    requires
        a.len() == 4,
        b.len() == 4,
        c.len() == 4,
    ensures
        ({
            let rest = seq![0u8] + (a + (b + (seq![free] + c)));
            &&& text.push(0) + a + b + seq![free] + c == text + rest
            &&& rest.len() == 14
            &&& rest[0] == 0
            &&& rest.skip(1) == a + (b + (seq![free] + c))
            &&& rest.skip(5) == b + (seq![free] + c)
            &&& rest[9] == free
            &&& rest.skip(10) == c
        }),
{
    let rest = seq![0u8] + (a + (b + (seq![free] + c)));
    assert(text.push(0) + a + b + seq![free] + c =~= text + rest);
    assert(rest.skip(1) =~= a + (b + (seq![free] + c)));
    assert(rest.skip(5) =~= b + (seq![free] + c));
    assert(rest.skip(10) =~= c);
}

/// A request whose name cannot be read asks for nothing.
pub proof fn law_nameless_requests_ask_for_nothing(
    data: Seq<u8>,
    username: Seq<char>,
    addr: Seq<char>,
)
    ensures
        !(step_string(data) is Done) ==> request_of(43, data, username, addr)
            == PeerRequestView::Nothing && request_of(51, data, username, addr)
            == PeerRequestView::Nothing,
        !(step_string(data.skip(4)) is Done) ==> request_of(8, data, username, addr)
            == PeerRequestView::Nothing,
        !(step_string(data.skip(4).skip(4)) is Done) ==> request_of(40, data, username, addr)
            == PeerRequestView::Nothing,
{
}

/// The port for obfuscated connections follows the one for plain connections.
pub proof fn law_ports_of_the_client()
    ensures
        PEER_LISTEN_PORT == 2234,
        PEER_OBFUSCATED_PORT == PEER_LISTEN_PORT + 1,
        SERVER_PORT == 2242,
{
}

} // verus!
