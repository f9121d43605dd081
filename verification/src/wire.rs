//! Byte buffers, little-endian integers, length-prefixed strings and message frames.
//!
//! Every field of the protocol is read by a total function on byte sequences that says
//! what was read and what is left; the executable readers are proved to agree with them.

use crate::text::{decimal, push_decimal};
use bytes::{Buf, BufMut, Bytes, BytesMut};
use vstd::prelude::*;
use vstd::string::StringSliceAdditionalSpecFns;
use vstd::utf8::{decode_utf8, encode_utf8, valid_utf8};

verus! {

// ---------------------------------------------------------------------------
// The outside buffers
// ---------------------------------------------------------------------------
/// The growable buffer of the `bytes` crate.
#[verifier::external_type_specification]
#[verifier::external_body]
pub struct ExBytesMut(bytes::BytesMut);

/// The frozen buffer of the `bytes` crate.
#[verifier::external_type_specification]
#[verifier::external_body]
pub struct ExBytes(bytes::Bytes);

/// The bytes that a `BytesMut` still holds, in reading order.
pub uninterp spec fn contents(buf: BytesMut) -> Seq<u8>;

/// The bytes that a frozen `Bytes` holds.
pub uninterp spec fn frozen(buf: Bytes) -> Seq<u8>;

/// `BytesMut::new`: an empty buffer.
#[verifier::external_body]
pub(crate) fn new_buffer() -> (buf: BytesMut)
    ensures
        contents(buf) == Seq::<u8>::empty(),
{
    BytesMut::new()
}

/// `BytesMut::from(&[u8])`: a buffer that holds a copy of the slice.
#[verifier::external_body]
pub(crate) fn buffer_of(data: &[u8]) -> (buf: BytesMut)
    ensures
        contents(buf) == data@,
{
    BytesMut::from(data)
}

/// `Buf::remaining`: how many bytes are left.
#[verifier::external_body]
pub(crate) fn remaining(buf: &BytesMut) -> (n: usize)
    ensures
        n == contents(*buf).len(),
{
    buf.remaining()
}

/// `BytesMut::deref`: the bytes that are left, as a slice.
#[verifier::external_body]
pub(crate) fn as_slice(buf: &BytesMut) -> (data: &[u8])
    ensures
        data@ == contents(*buf),
{
    buf
}

/// `BufMut::put_u8`: appends one byte.
#[verifier::external_body]
pub(crate) fn put_u8(buf: &mut BytesMut, n: u8)
    ensures
        contents(*final(buf)) == contents(*old(buf)).push(n),
{
    buf.put_u8(n)
}

/// `BufMut::put_u32_le`: appends the four bytes of `n`, least significant first.
#[verifier::external_body]
pub(crate) fn put_u32_le(buf: &mut BytesMut, n: u32)
    ensures
        contents(*final(buf)) == contents(*old(buf)) + u32_bytes(n),
{
    buf.put_u32_le(n)
}

/// `BufMut::put_slice`: appends the bytes of the slice.
#[verifier::external_body]
pub(crate) fn put_slice(buf: &mut BytesMut, data: &[u8])
    ensures
        contents(*final(buf)) == contents(*old(buf)) + data@,
{
    buf.put_slice(data)
}

/// `Buf::get_u8`: takes the first byte. It panics on an empty buffer.
#[verifier::external_body]
pub(crate) fn get_u8(buf: &mut BytesMut) -> (n: u8)
    requires
        contents(*old(buf)).len() >= 1,
    ensures
        n == contents(*old(buf))[0],
        contents(*final(buf)) == contents(*old(buf)).skip(1),
{
    buf.get_u8()
}

/// `Buf::get_u16_le`: takes two bytes as a little-endian integer. It panics when fewer
/// are left.
#[verifier::external_body]
pub(crate) fn get_u16_le(buf: &mut BytesMut) -> (n: u16)
    requires
        contents(*old(buf)).len() >= 2,
    ensures
        n == u16_value(contents(*old(buf))),
        contents(*final(buf)) == contents(*old(buf)).skip(2),
{
    buf.get_u16_le()
}

/// `Buf::get_u32_le`: takes four bytes as a little-endian integer. It panics when fewer
/// are left.
#[verifier::external_body]
pub(crate) fn get_u32_le(buf: &mut BytesMut) -> (n: u32)
    requires
        contents(*old(buf)).len() >= 4,
    ensures
        n == u32_value(contents(*old(buf))),
        contents(*final(buf)) == contents(*old(buf)).skip(4),
{
    buf.get_u32_le()
}

/// `Buf::get_u64_le`: takes eight bytes as a little-endian integer. It panics when fewer
/// are left.
#[verifier::external_body]
pub(crate) fn get_u64_le(buf: &mut BytesMut) -> (n: u64)
    requires
        contents(*old(buf)).len() >= 8,
    ensures
        n == u64_value(contents(*old(buf))),
        contents(*final(buf)) == contents(*old(buf)).skip(8),
{
    buf.get_u64_le()
}

/// `Buf::copy_to_slice` into a fresh vector of `n` bytes: takes the first `n` bytes. It
/// panics when fewer are left.
#[verifier::external_body]
pub(crate) fn take_bytes(buf: &mut BytesMut, n: usize) -> (data: Vec<u8>)
    requires
        contents(*old(buf)).len() >= n,
    ensures
        data@ == contents(*old(buf)).take(n as int),
        contents(*final(buf)) == contents(*old(buf)).skip(n as int),
{
    let mut data = vec![0u8; n];
    buf.copy_to_slice(&mut data);
    data
}

/// `Buf::advance`: drops the first `n` bytes. It panics when fewer are left.
#[verifier::external_body]
pub(crate) fn advance(buf: &mut BytesMut, n: usize)
    requires
        contents(*old(buf)).len() >= n,
    ensures
        contents(*final(buf)) == contents(*old(buf)).skip(n as int),
{
    buf.advance(n)
}

/// `BytesMut::clear`: drops everything.
#[verifier::external_body]
pub(crate) fn clear(buf: &mut BytesMut)
    ensures
        contents(*final(buf)) == Seq::<u8>::empty(),
{
    buf.clear()
}

/// `BytesMut::freeze`: the same bytes, no longer growable.
#[verifier::external_body]
pub(crate) fn freeze(buf: BytesMut) -> (data: Bytes)
    ensures
        frozen(data) == contents(buf),
{
    buf.freeze()
}

/// `String::from_utf8`: the text that the bytes encode, if they are valid UTF-8.
#[verifier::external_body]
pub(crate) fn string_from_utf8(data: Vec<u8>) -> (text: Option<String>)
    ensures
        text is Some <==> valid_utf8(data@),
        text matches Some(s) ==> s@ == decode_utf8(data@),
{
    String::from_utf8(data).ok()
}

// ---------------------------------------------------------------------------
// Little-endian integers
// ---------------------------------------------------------------------------
/// The four bytes of a 32-bit integer, least significant first.
pub open spec fn u32_bytes(n: u32) -> Seq<u8> {
    seq![
        (n % 256) as u8,
        (n / 256 % 256) as u8,
        (n / 65536 % 256) as u8,
        (n / 16777216 % 256) as u8,
    ]
}

/// The integer that the first two bytes spell, least significant first.
pub open spec fn u16_value(b: Seq<u8>) -> u16 {
    (b[0] + 256 * b[1]) as u16
}

/// The integer that the first four bytes spell, least significant first.
pub open spec fn u32_value(b: Seq<u8>) -> u32 {
    (b[0] + 256 * b[1] + 65536 * b[2] + 16777216 * b[3]) as u32
}

/// The integer that the first eight bytes spell, least significant first.
pub open spec fn u64_value(b: Seq<u8>) -> u64 {
    (u32_value(b) + 4294967296 * u32_value(b.skip(4))) as u64
}

/// Reading back the four bytes of an integer gives the integer.
pub proof fn lemma_u32_round_trip(n: u32, rest: Seq<u8>)
    ensures
        u32_value(u32_bytes(n) + rest) == n,
        (u32_bytes(n) + rest).skip(4) == rest,
        u32_bytes(n).len() == 4,
{
    let b = u32_bytes(n) + rest;
    assert(b[0] == n % 256 && b[1] == n / 256 % 256 && b[2] == n / 65536 % 256 && b[3] == n
        / 16777216 % 256);
    assert(b.skip(4) =~= rest);
}

/// A length as it fits in the 32-bit length field: what is above 32 bits is cut off.
pub open spec fn length_field(n: nat) -> u32 {
    (n % 0x1_0000_0000) as u32
}

/// Cuts a length to the 32 bits of the length field.
pub(crate) fn low32(n: usize) -> (r: u32)
    ensures
        r == length_field(n as nat),
{
    let wide: u64 = n as u64;
    assert(wide as u32 == wide % 0x1_0000_0000) by (bit_vector);
    wide as u32
}

// ---------------------------------------------------------------------------
// Reading
// ---------------------------------------------------------------------------
/// Why a message was refused.
#[derive(Debug, Clone, Copy, PartialEq, Eq, Structural)]
pub enum WireError {
    /// Fewer than four bytes are left where a string length is due.
    StringLength,
    /// A string announces more bytes than are left.
    StringData,
    /// The bytes of a string are not UTF-8.
    InvalidUtf8,
    /// A frame has no room for its message code.
    MessageTooShort,
    /// A peer message whose code this client does not read.
    UnknownPeerCode(u32),
    /// A search response of fewer than eight bytes.
    NotEnoughData,
    /// A peer address without its address and port.
    PeerAddressTooShort,
    /// A private message without its number and time.
    ChatTooShort,
    /// A message that this client only receives.
    NotEncodable,
}

impl WireError {
    /// The error in words.
    pub open spec fn text(self) -> Seq<char> {
        match self {
            WireError::StringLength => "Not enough bytes for string length"@,
            WireError::StringData => "Not enough bytes for string data"@,
            WireError::InvalidUtf8 => "Invalid UTF-8"@,
            WireError::MessageTooShort => "Message too short"@,
            WireError::UnknownPeerCode(code) => "Unknown peer message code: "@ + decimal(
                code as nat,
            ),
            WireError::NotEnoughData => "Not enough data"@,
            WireError::PeerAddressTooShort => "Invalid PeerAddress response - not enough bytes"@,
            WireError::ChatTooShort => "Chat message too short"@,
            WireError::NotEncodable => "Message encoding not implemented"@,
        }
    }

    /// Puts the error into words.
    pub fn message(&self) -> (r: String)
        ensures
            r@ == self.text(),
    {
        match self {
            WireError::StringLength => "Not enough bytes for string length".to_owned(),
            WireError::StringData => "Not enough bytes for string data".to_owned(),
            WireError::InvalidUtf8 => "Invalid UTF-8".to_owned(),
            WireError::MessageTooShort => "Message too short".to_owned(),
            WireError::UnknownPeerCode(code) => {
                let mut r = "Unknown peer message code: ".to_owned();
                push_decimal(&mut r, *code as u64);
                r
            },
            WireError::NotEnoughData => "Not enough data".to_owned(),
            WireError::PeerAddressTooShort => "Invalid PeerAddress response - not enough bytes".to_owned(),
            WireError::ChatTooShort => "Chat message too short".to_owned(),
            WireError::NotEncodable => "Message encoding not implemented".to_owned(),
        }
    }
}

/// What reading a field of a byte sequence comes to.
#[verifier::ext_equal]
pub enum Step<T> {
    /// The value read, and the bytes after it.
    Done(T, Seq<u8>),
    /// The input is refused, with the bytes that were left at that point.
    Failed(WireError, Seq<u8>),
    /// A field of fixed size reaches past the end of the input.
    Short,
}

/// Why a reader stopped.
#[derive(Debug, Clone, Copy, PartialEq, Eq, Structural)]
pub enum Halt {
    /// The input is refused.
    Failed(WireError),
    /// A field of fixed size reaches past the end of the input.
    Short,
}

/// The executable result `r`, which left `rest`, is what `step` says.
pub open spec fn agrees<T>(r: Result<T, Halt>, rest: Seq<u8>, step: Step<T>) -> bool {
    match r {
        Ok(v) => step == Step::Done(v, rest),
        Err(Halt::Failed(e)) => step == Step::<T>::Failed(e, rest),
        Err(Halt::Short) => step == Step::<T>::Short,
    }
}

/// The same for a value that is described by its view.
pub open spec fn agrees_view<T: View>(r: Result<T, Halt>, rest: Seq<u8>, step: Step<T::V>) -> bool {
    match r {
        Ok(v) => step == Step::Done(v@, rest),
        Err(Halt::Failed(e)) => step == Step::<T::V>::Failed(e, rest),
        Err(Halt::Short) => step == Step::<T::V>::Short,
    }
}

/// Reads a field, and then what `f` reads after it.
pub open spec fn bind<T, U>(step: Step<T>, f: spec_fn(T, Seq<u8>) -> Step<U>) -> Step<U> {
    match step {
        Step::Done(v, rest) => f(v, rest),
        Step::Failed(e, rest) => Step::Failed(e, rest),
        Step::Short => Step::Short,
    }
}

/// What a step comes to, without the bytes that are left.
pub open spec fn outcome<T>(step: Step<T>) -> Result<T, Halt> {
    match step {
        Step::Done(v, rest) => Ok(v),
        Step::Failed(e, rest) => Err(Halt::Failed(e)),
        Step::Short => Err(Halt::Short),
    }
}

/// A result with its value by its view.
pub open spec fn viewed<T: View, E>(r: Result<T, E>) -> Result<T::V, E> {
    match r {
        Ok(v) => Ok(v@),
        Err(e) => Err(e),
    }
}

/// The first byte.
pub open spec fn step_u8(b: Seq<u8>) -> Step<u8> {
    if b.len() < 1 {
        Step::Short
    } else {
        Step::Done(b[0], b.skip(1))
    }
}

/// A 16-bit integer.
pub open spec fn step_u16(b: Seq<u8>) -> Step<u16> {
    if b.len() < 2 {
        Step::Short
    } else {
        Step::Done(u16_value(b), b.skip(2))
    }
}

/// A 32-bit integer.
pub open spec fn step_u32(b: Seq<u8>) -> Step<u32> {
    if b.len() < 4 {
        Step::Short
    } else {
        Step::Done(u32_value(b), b.skip(4))
    }
}

/// A 64-bit integer.
pub open spec fn step_u64(b: Seq<u8>) -> Step<u64> {
    if b.len() < 8 {
        Step::Short
    } else {
        Step::Done(u64_value(b), b.skip(8))
    }
}

/// A length-prefixed string.
pub open spec fn step_string(b: Seq<u8>) -> Step<Seq<char>> {
    if b.len() < 4 {
        Step::Failed(WireError::StringLength, b)
    } else {
        let n = u32_value(b) as int;
        let rest = b.skip(4);
        if rest.len() < n {
            Step::Failed(WireError::StringData, rest)
        } else if valid_utf8(rest.take(n)) {
            Step::Done(decode_utf8(rest.take(n)), rest.skip(n))
        } else {
            Step::Failed(WireError::InvalidUtf8, rest.skip(n))
        }
    }
}

/// Reads one byte.
pub fn read_u8(buf: &mut BytesMut) -> (r: Result<u8, Halt>)
    ensures
        agrees(r, contents(*final(buf)), step_u8(contents(*old(buf)))),
{
    if remaining(buf) < 1 {
        return Err(Halt::Short);
    }
    Ok(get_u8(buf))
}

/// Reads a 16-bit integer.
pub fn read_u16(buf: &mut BytesMut) -> (r: Result<u16, Halt>)
    ensures
        agrees(r, contents(*final(buf)), step_u16(contents(*old(buf)))),
{
    if remaining(buf) < 2 {
        return Err(Halt::Short);
    }
    Ok(get_u16_le(buf))
}

/// Reads a 32-bit integer.
pub fn read_u32(buf: &mut BytesMut) -> (r: Result<u32, Halt>)
    ensures
        agrees(r, contents(*final(buf)), step_u32(contents(*old(buf)))),
{
    if remaining(buf) < 4 {
        return Err(Halt::Short);
    }
    Ok(get_u32_le(buf))
}

/// Reads a 64-bit integer.
pub fn read_u64(buf: &mut BytesMut) -> (r: Result<u64, Halt>)
    ensures
        agrees(r, contents(*final(buf)), step_u64(contents(*old(buf)))),
{
    if remaining(buf) < 8 {
        return Err(Halt::Short);
    }
    Ok(get_u64_le(buf))
}

/// Reads a length-prefixed string.
pub fn read_string(buf: &mut BytesMut) -> (r: Result<String, Halt>)
    ensures
        agrees_view(r, contents(*final(buf)), step_string(contents(*old(buf)))),
{
    if remaining(buf) < 4 {
        return Err(Halt::Failed(WireError::StringLength));
    }
    let len: usize = get_u32_le(buf) as usize;
    if remaining(buf) < len {
        return Err(Halt::Failed(WireError::StringData));
    }
    let data = take_bytes(buf, len);
    match string_from_utf8(data) {
        Some(s) => Ok(s),
        None => Err(Halt::Failed(WireError::InvalidUtf8)),
    }
}

// ---------------------------------------------------------------------------
// Writing
// ---------------------------------------------------------------------------
/// A string as it is written: its length in bytes, then its UTF-8 bytes.
pub open spec fn string_field(s: Seq<char>) -> Seq<u8> {
    u32_bytes(length_field(encode_utf8(s).len())) + encode_utf8(s)
}

/// A message as it is sent: the length of code and data, the code, the data.
pub open spec fn frame(code: u32, data: Seq<u8>) -> Seq<u8> {
    u32_bytes(length_field(4 + data.len())) + u32_bytes(code) + data
}

/// Writes a length-prefixed string.
pub fn write_string(buf: &mut BytesMut, s: &str)
    ensures
        contents(*final(buf)) == contents(*old(buf)) + string_field(s@),
{
    let data = s.as_bytes();
    put_u32_le(buf, low32(data.len()));
    put_slice(buf, data);
    assert(contents(*buf) =~= contents(*old(buf)) + string_field(s@));
}

/// The length field of a message with `n` bytes of data.
fn frame_length(n: usize) -> (len: u32)
    ensures
        len == length_field(4 + n as nat),
{
    let low: u32 = low32(n);
    low.wrapping_add(4)
}

/// Puts the length and the code of a message before its data.
pub fn message_frame(code: u32, data: &[u8]) -> (message: Vec<u8>)
    ensures
        message@ == frame(code, data@),
{
    let mut buf = new_buffer();
    let len: u32 = frame_length(data.len());
    put_u32_le(&mut buf, len);
    put_u32_le(&mut buf, code);
    put_slice(&mut buf, data);
    assert(Seq::<u8>::empty() + u32_bytes(len) =~= u32_bytes(len));
    bytes_of(buf)
}

/// Hands the bytes of a buffer out as a vector.
pub fn bytes_of(buf: BytesMut) -> (data: Vec<u8>)
    ensures
        data@ == contents(buf),
{
    let mut source = buf;
    let n: usize = remaining(&source);
    let data = take_bytes(&mut source, n);
    assert(contents(buf).take(n as int) =~= contents(buf));
    data
}

/// What `write_string` wrote, `read_string` reads back, and it leaves what came after.
/// A string of four gigabytes or more does not fit its length field and is left out.
pub proof fn law_string_round_trip(s: Seq<char>, rest: Seq<u8>)
    requires
        encode_utf8(s).len() < 0x1_0000_0000,
    ensures
        step_string(string_field(s) + rest) == Step::Done(s, rest),
{
    let data = encode_utf8(s);
    let n = data.len() as u32;
    lemma_u32_round_trip(n, data + rest);
    assert(string_field(s) + rest =~= u32_bytes(n) + (data + rest));
    assert((data + rest).take(n as int) =~= data);
    assert((data + rest).skip(n as int) =~= rest);
    vstd::utf8::encode_utf8_valid_utf8(s);
    vstd::utf8::encode_utf8_decode_utf8(s);
}

/// A frame announces its own length: the length field counts every byte after it.
pub proof fn law_frame_announces_its_length(code: u32, data: Seq<u8>)
    requires
        4 + data.len() < 0x1_0000_0000,
    ensures
        frame(code, data).len() == 4 + u32_value(frame(code, data)),
        u32_value(frame(code, data).skip(4)) == code,
        frame(code, data).skip(8) == data,
{
    let n = (4 + data.len()) as u32;
    lemma_u32_round_trip(n, u32_bytes(code) + data);
    lemma_u32_round_trip(code, data);
    assert(frame(code, data) =~= u32_bytes(n) + (u32_bytes(code) + data));
    assert(frame(code, data).skip(4) =~= u32_bytes(code) + data);
    assert(frame(code, data).skip(8) =~= data);
}

/// The eight bytes of a 64-bit integer, least significant first.
pub open spec fn u64_bytes(n: u64) -> Seq<u8> {
    u32_bytes((n % 0x1_0000_0000) as u32) + u32_bytes((n / 0x1_0000_0000) as u32)
}

/// Reading back the eight bytes of an integer gives the integer, and leaves what came after.
pub proof fn law_u64_round_trip(n: u64, rest: Seq<u8>)
    ensures
        step_u64(u64_bytes(n) + rest) == Step::Done(n, rest),
        u64_value(u64_bytes(n) + rest) == n,
        (u64_bytes(n) + rest).skip(8) == rest,
        u64_bytes(n).len() == 8,
{
    let low = (n % 0x1_0000_0000) as u32;
    let high = (n / 0x1_0000_0000) as u32;
    let b = u64_bytes(n) + rest;
    lemma_u32_round_trip(low, u32_bytes(high) + rest);
    lemma_u32_round_trip(high, rest);
    assert(b =~= u32_bytes(low) + (u32_bytes(high) + rest));
    assert(b.skip(8) =~= rest);
}

/// Reading back the four bytes of an integer gives the integer, and leaves what came after.
/// With fewer bytes there is nothing to read.
pub proof fn law_u32_round_trip(n: u32, rest: Seq<u8>, short: Seq<u8>)
    requires
        short.len() < 4,
    ensures
        step_u32(u32_bytes(n) + rest) == Step::Done(n, rest),
        step_u32(short) is Short,
{
    lemma_u32_round_trip(n, rest);
}

/// A 16-bit integer is read from two bytes, the less significant one first, and a byte from
/// one. With fewer bytes there is nothing to read.
pub proof fn law_small_integers_are_read(low: u8, high: u8, rest: Seq<u8>)
    ensures
        step_u16(seq![low, high] + rest) matches Step::Done(n, left) && n == low + 256 * high
            && left == rest,
        step_u16(seq![low]) is Short,
        step_u8(seq![low] + rest) == Step::Done(low, rest),
        step_u8(Seq::<u8>::empty()) is Short,
{
    assert((seq![low, high] + rest).skip(2) =~= rest);
    assert((seq![low] + rest).skip(1) =~= rest);
}

/// A string is refused where its length is cut off, where it announces more bytes than there
/// are, and where its bytes are not UTF-8, and nowhere else.
pub proof fn law_strings_are_refused(b: Seq<u8>)
    ensures
        b.len() < 4 <==> (step_string(b) matches Step::Failed(e, rest) && e
            == WireError::StringLength),
        b.len() >= 4 && b.len() - 4 < u32_value(b) <==> (step_string(b) matches Step::Failed(e, rest)
            && e == WireError::StringData),
        b.len() >= 4 && b.len() - 4 >= u32_value(b) && !valid_utf8(
            b.subrange(4, 4 + u32_value(b)),
        ) <==> (step_string(b) matches Step::Failed(e, rest) && e == WireError::InvalidUtf8),
        !(step_string(b) is Short),
        step_string(b) matches Step::Done(s, rest) ==> b == u32_bytes(u32_value(b)) + encode_utf8(s)
            + rest && encode_utf8(s).len() == u32_value(b),
{
    if b.len() >= 4 && b.len() - 4 >= u32_value(b) {
        let n = u32_value(b) as int;
        assert(b.skip(4).take(n) =~= b.subrange(4, 4 + n));
        if valid_utf8(b.subrange(4, 4 + n)) {
            vstd::utf8::decode_utf8_encode_utf8(b.skip(4).take(n));
            lemma_bytes_of_value(b);
            assert(b =~= b.take(4) + b.skip(4).take(n) + b.skip(4).skip(n));
        }
    }
}

/// The first four bytes are those of the integer that they spell.
proof fn lemma_bytes_of_value(b: Seq<u8>)
    requires
        b.len() >= 4,
    ensures
        u32_bytes(u32_value(b)) == b.take(4),
{
    let (b0, b1, b2, b3) = (b[0], b[1], b[2], b[3]);
    let n = u32_value(b);
    assert(n == b0 + 256 * b1 + 65536 * b2 + 16777216 * b3);
    assert(n % 256 == b0);
    assert(n / 256 % 256 == b1);
    assert(n / 65536 % 256 == b2);
    assert(n / 16777216 % 256 == b3);
    assert(u32_bytes(n) =~= b.take(4));
}

/// Nothing appended changes nothing.
pub proof fn lemma_append_nothing(a: Seq<u8>)
    ensures
        a + Seq::<u8>::empty() == a,
{
    assert(a + Seq::<u8>::empty() =~= a);
}

/// Three pieces, taken from the back.
pub proof fn lemma_join3(a: Seq<u8>, b: Seq<u8>, c: Seq<u8>)
    ensures
        a + b + c == a + (b + c),
{
    assert(a + b + c =~= a + (b + c));
}

/// Four pieces, taken from the back.
pub proof fn lemma_join4(a: Seq<u8>, b: Seq<u8>, c: Seq<u8>, d: Seq<u8>)
    ensures
        a + b + c + d == a + (b + (c + d)),
{
    assert(a + b + c + d =~= a + (b + (c + d)));
}

/// Five pieces, taken from the back.
pub proof fn lemma_join5(a: Seq<u8>, b: Seq<u8>, c: Seq<u8>, d: Seq<u8>, e: Seq<u8>)
    ensures
        a + b + c + d + e == a + (b + (c + (d + e))),
{
    lemma_join4(a, b, c, d);
    lemma_join4(a, b, c, d + e);
    assert(a + b + c + d + e =~= a + b + c + (d + e));
}

/// Six pieces, taken from the back.
pub proof fn lemma_join6(
    a: Seq<u8>,
    b: Seq<u8>,
    c: Seq<u8>,
    d: Seq<u8>,
    e: Seq<u8>,
    f: Seq<u8>,
)
    ensures
        a + b + c + d + e + f == a + (b + (c + (d + (e + f)))),
{
    lemma_join5(a, b, c, d, e + f);
    lemma_join3(a + b + c + d, e, f);
}

/// Eight pieces, taken from the back.
pub proof fn lemma_join8(
    a: Seq<u8>,
    b: Seq<u8>,
    c: Seq<u8>,
    d: Seq<u8>,
    e: Seq<u8>,
    f: Seq<u8>,
    g: Seq<u8>,
    h: Seq<u8>,
)
    ensures
        a + b + c + d + e + f + g + h == a + (b + (c + (d + (e + (f + (g + h)))))),
{
    lemma_join6(a, b, c, d, e, f + (g + h));
    lemma_join4(a + b + c + d + e, f, g, h);
}

/// Reading goes on after a field that was read, with its value and the bytes that are left; a
/// field that was refused or cut off ends it, and is what it comes to.
pub proof fn law_reading_goes_on_after_a_field<T, U>(
    value: T,
    rest: Seq<u8>,
    e: WireError,
    f: spec_fn(T, Seq<u8>) -> Step<U>,
)
    ensures
        bind(Step::Done(value, rest), f) == f(value, rest),
        bind(Step::<T>::Failed(e, rest), f) == Step::<U>::Failed(e, rest),
        bind(Step::<T>::Short, f) == Step::<U>::Short,
        outcome(Step::Done(value, rest)) == Ok::<T, Halt>(value),
        outcome(Step::<T>::Failed(e, rest)) == Err::<T, Halt>(Halt::Failed(e)),
        outcome(Step::<T>::Short) == Err::<T, Halt>(Halt::Short),
{
}

/// A length below four gigabytes is its own length field.
pub proof fn law_short_lengths_are_kept(n: nat)
    requires
        n < 0x1_0000_0000,
    ensures
        length_field(n) == n,
{
}

/// An integer is written with its least significant byte first: a small one is in the first
/// byte alone, and each byte counts 256 times the one before it.
pub proof fn law_least_significant_byte_comes_first(n: u32, small: u8, b: Seq<u8>)
    requires
        b.len() == 4,
    ensures
        u32_bytes(small as u32) == seq![small, 0u8, 0u8, 0u8],
        u32_bytes(n).len() == 4,
        n == u32_bytes(n)[0] + 256 * (u32_bytes(n)[1] + 256 * (u32_bytes(n)[2] + 256 * u32_bytes(
            n,
        )[3])),
        u32_value(b) == b[0] + 256 * (b[1] + 256 * (b[2] + 256 * b[3])),
        u32_bytes(u32_value(b)) == b,
{
    assert(u32_bytes(small as u32) =~= seq![small, 0u8, 0u8, 0u8]);
    lemma_bytes_of_value(b);
    assert(b.take(4) =~= b);
}

/// Each error is told in its own words, and an unknown code with its number.
pub proof fn law_errors_are_told(code: u32)
    ensures
        WireError::StringLength.text() == "Not enough bytes for string length"@,
        WireError::StringData.text() == "Not enough bytes for string data"@,
        WireError::InvalidUtf8.text() == "Invalid UTF-8"@,
        WireError::MessageTooShort.text() == "Message too short"@,
        WireError::UnknownPeerCode(code).text() == "Unknown peer message code: "@ + decimal(
            code as nat,
        ),
        WireError::NotEnoughData.text() == "Not enough data"@,
        WireError::PeerAddressTooShort.text()
            == "Invalid PeerAddress response - not enough bytes"@,
        WireError::ChatTooShort.text() == "Chat message too short"@,
        WireError::NotEncodable.text() == "Message encoding not implemented"@,
{
}

} // verus!
