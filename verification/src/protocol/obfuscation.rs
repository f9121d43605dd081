//! Soulseek peer connection obfuscation
//!
//! Obfuscation is used by some Soulseek clients (like SoulseekQt) to make
//! P2P traffic harder for ISPs to identify and throttle.
//!
//! The algorithm:
//! 1. First 4 bytes of obfuscated message are a random key
//! 2. For each subsequent 4-byte block:
//!    - Rotate the key right by 31 bits (equivalent to rotate left by 1)
//!    - XOR the block with the rotated key
//!    - Use the rotated key for the next block

use crate::protocol::messages::u32_at;
use crate::wire::{lemma_u32_round_trip, u32_bytes, u32_value};
use vstd::prelude::*;

verus! {

/// `rand::random`: any 32-bit integer. Nothing is said of which one.
#[verifier::external_body]
pub(crate) fn random_u32() -> (n: u32) {
    rand::random()
}

/// A 32-bit integer rotated right by `n` bits.
pub open spec fn rotated_right(value: u32, n: u32) -> u32 {
    if n % 32 == 0 {
        value
    } else {
        (value >> (n % 32)) | (value << ((32 - n % 32) as u32))
    }
}

/// Rotate a u32 right by n bits
pub fn rotate_right(value: u32, n: u32) -> (r: u32)
    ensures
        r == rotated_right(value, n),
{
    let k: u32 = n % 32;
    if k == 0 {
        value
    } else {
        (value >> k) | (value << (32 - k))
    }
}

/// Rotating right by 31 bits is rotating left by one.
pub proof fn law_rotation_by_31_is_left_by_one(value: u32)
    ensures
        rotated_right(value, 31) == (value << 1) | (value >> 31),
{
    assert((value >> 31) | (value << 1) == (value << 1) | (value >> 31)) by (bit_vector);
}

/// The key after `n` blocks.
pub open spec fn round_key(key: u32, n: nat) -> u32
    decreases n,
{
    if n == 0 {
        key
    } else {
        rotated_right(round_key(key, (n - 1) as nat), 31)
    }
}

/// The byte that masks byte `i` of the message.
pub open spec fn mask(key: u32, i: int) -> u8 {
    u32_bytes(round_key(key, (i / 4 + 1) as nat))[i % 4]
}

/// A message with every byte masked.
pub open spec fn masked(key: u32, data: Seq<u8>) -> Seq<u8> {
    Seq::new(data.len(), |i: int| data[i] ^ mask(key, i))
}

/// A message as it is sent: the key, then the masked bytes.
pub open spec fn obfuscated(key: u32, data: Seq<u8>) -> Seq<u8> {
    u32_bytes(key) + masked(key, data)
}

/// The message that an obfuscated one holds, if it is long enough to hold a key.
pub open spec fn deobfuscated(data: Seq<u8>) -> Option<Seq<u8>> {
    if data.len() < 4 {
        None
    } else {
        Some(masked(u32_value(data), data.skip(4)))
    }
}

/// Byte `i` of a key, least significant first.
fn key_byte(key: u32, i: usize) -> (b: u8)
    requires
        i < 4,
    ensures
        b == u32_bytes(key)[i as int],
{
    if i == 0 {
        (key % 256) as u8
    } else if i == 1 {
        (key / 256 % 256) as u8
    } else if i == 2 {
        (key / 65536 % 256) as u8
    } else {
        (key / 16777216 % 256) as u8
    }
}

/// Appends the bytes of `data` from `from` on, masked.
fn push_masked(out: &mut Vec<u8>, initial_key: u32, data: &[u8], from: usize)
    requires
        from <= data.len(),
    ensures
        final(out)@ == old(out)@ + masked(initial_key, data@.skip(from as int)),
{
    let mut key: u32 = initial_key;
    let mut i: usize = 0;
    let len: usize = data.len() - from;
    let ghost body = data@.skip(from as int);
    while i < len
        invariant
            i <= len,
            len == data.len() - from,
            body == data@.skip(from as int),
            key == round_key(initial_key, ((i + 3) / 4) as nat),
            out@ == old(out)@ + masked(initial_key, body).take(i as int),
        decreases len - i,
    {
        if i % 4 == 0 {
            key = rotate_right(key, 31);
        }
        let byte: u8 = data[from + i];
        out.push(byte ^ key_byte(key, i % 4));
        proof {
            assert(key == round_key(initial_key, (i as int / 4 + 1) as nat));
            assert(masked(initial_key, body)[i as int] == byte ^ mask(initial_key, i as int));
            assert(masked(initial_key, body).take(i + 1) =~= masked(initial_key, body).take(
                i as int,
            ).push(masked(initial_key, body)[i as int]));
            assert(out@ =~= old(out)@ + masked(initial_key, body).take(i + 1));
        }
        i = i + 1;
    }
    assert(masked(initial_key, body).take(i as int) =~= masked(initial_key, body));
}

/// Obfuscate a message with a given key.
pub fn obfuscate_with_key(key: u32, data: &[u8]) -> (result: Vec<u8>)
    ensures
        result@ == obfuscated(key, data@),
{
    let mut result: Vec<u8> = Vec::new();
    let mut i: usize = 0;
    while i < 4
        invariant
            i <= 4,
            result@ == u32_bytes(key).take(i as int),
        decreases 4 - i,
    {
        result.push(key_byte(key, i));
        assert(u32_bytes(key).take(i + 1) =~= u32_bytes(key).take(i as int).push(
            u32_bytes(key)[i as int],
        ));
        i = i + 1;
    }
    assert(u32_bytes(key).take(4) =~= u32_bytes(key));
    push_masked(&mut result, key, data, 0);
    assert(data@.skip(0) =~= data@);
    result
}

/// Obfuscate a message using the Soulseek obfuscation algorithm
/// Returns the obfuscated message with the 4-byte key prepended
pub fn obfuscate(data: &[u8]) -> (result: Vec<u8>)
    ensures
        result@.len() == 4 + data@.len(),
        result@ == obfuscated(u32_value(result@), data@),
        deobfuscated(result@) == Some(data@),
{
    let key: u32 = random_u32();
    let result = obfuscate_with_key(key, data);
    proof {
        law_deobfuscation_undoes_obfuscation(key, data@);
        lemma_u32_round_trip(key, masked(key, data@));
    }
    result
}

/// Deobfuscate a message using the Soulseek obfuscation algorithm
/// The first 4 bytes of the input are the key
/// Returns the deobfuscated message (without the key prefix)
pub fn deobfuscate(data: &[u8]) -> (r: Option<Vec<u8>>)
    ensures
        match r {
            Some(message) => deobfuscated(data@) == Some(message@),
            None => deobfuscated(data@) is None,
        },
{
    if data.len() < 4 {
        return None;
    }
    let initial_key: u32 = u32_at(data, 0);
    assert(data@.skip(0) =~= data@);
    let mut result: Vec<u8> = Vec::new();
    push_masked(&mut result, initial_key, data, 4);
    assert(result@ =~= masked(initial_key, data@.skip(4)));
    Some(result)
}

/// The message starts like a plain peer init message: its first byte is 0 or 1 and its
/// length is that of an init message.
pub open spec fn looks_plain(data: Seq<u8>) -> bool {
    (data[0] == 0 || data[0] == 1) && 0 < u32_value(data) < 1000
}

/// The message is a length in reason and the type of an init message.
pub open spec fn looks_like_init(message: Seq<u8>) -> bool {
    &&& message.len() >= 5
    &&& 0 < u32_value(message) < 10_000_000
    &&& message[4] == 0 || message[4] == 1
}

/// Check if data appears to be obfuscated
/// This is a heuristic - we try to deobfuscate and check if the result
/// looks like a valid peer init message
pub fn is_likely_obfuscated(data: &[u8]) -> (r: bool)
    ensures
        r <==> data@.len() >= 9 && !looks_plain(data@) && looks_like_init(
            deobfuscated(data@)->Some_0,
        ),
{
    if data.len() < 9 {
        return false;
    }
    assert(data@.skip(0) =~= data@);
    if data[0] == 0 || data[0] == 1 {
        let potential_length: u32 = u32_at(data, 0);
        if potential_length > 0 && potential_length < 1000 {
            return false;
        }
    }
    match deobfuscate(data) {
        Some(message) => {
            assert(message@.skip(0) =~= message@);
            let length: u32 = u32_at(message.as_slice(), 0);
            length > 0 && length < 10_000_000 && (message[4] == 0 || message[4] == 1)
        },
        None => false,
    }
}

/// Deobfuscating what was obfuscated, whatever the key, gives the message back.
pub proof fn law_deobfuscation_undoes_obfuscation(key: u32, data: Seq<u8>)
    ensures
        deobfuscated(obfuscated(key, data)) == Some(data),
{
    let hidden = masked(key, data);
    lemma_u32_round_trip(key, hidden);
    assert forall|i: int| 0 <= i < data.len() implies masked(key, hidden)[i] == data[i] by {
        let (a, m) = (data[i], mask(key, i));
        assert((a ^ m) ^ m == a) by (bit_vector);
    }
    assert(masked(key, hidden) =~= data);
}

/// Rotating moves every bit: bit `i` of the result is the bit of the value that stands `n`
/// places above it, counted round.
pub proof fn law_rotation_moves_every_bit(value: u32, n: u32, i: u32)
    requires
        i < 32,
        n < 32,
    ensures
        (rotated_right(value, n) >> i) & 1 == (value >> ((i + n) % 32) as u32) & 1,
{
    let j = ((i + n) % 32) as u32;
    assert(n % 32 == n);
    if n == 0 {
        assert(j == i);
    } else {
        let k = (32 - n) as u32;
        let r = (value >> n) | (value << k);
        assert((((value >> n) | (value << k)) >> i) & 1 == (value >> j) & 1) by (bit_vector)
            requires
                i < 32,
                0 < n < 32,
                k == 32 - n,
                j == (i + n) % 32,
        ;
    }
}

/// The key of a block is the key of the block before it rotated left by one bit, and that of
/// the first block is the key of the message rotated so.
pub proof fn law_key_is_rotated_for_every_block(key: u32, n: nat)
    ensures
        round_key(key, 0) == key,
        round_key(key, n + 1) == (round_key(key, n) << 1) | (round_key(key, n) >> 31),
{
    law_rotation_by_31_is_left_by_one(round_key(key, n));
}

/// Four bytes that are masked one by one are masked as one integer.
proof fn lemma_bytes_are_masked_together(b: Seq<u8>, m: Seq<u8>, r: Seq<u8>)
    requires
        b.len() >= 4,
        m.len() >= 4,
        r.len() >= 4,
        forall|i: int| 0 <= i < 4 ==> #[trigger] r[i] == b[i] ^ m[i],
    ensures
        u32_value(r) == u32_value(b) ^ u32_value(m),
{
    let (b0, b1, b2, b3) = (b[0] as u32, b[1] as u32, b[2] as u32, b[3] as u32);
    let (m0, m1, m2, m3) = (m[0] as u32, m[1] as u32, m[2] as u32, m[3] as u32);
    let (c0, c1, c2, c3) = (b[0], b[1], b[2], b[3]);
    let (n0, n1, n2, n3) = (m[0], m[1], m[2], m[3]);
    assert((c0 ^ n0) as u32 == (c0 as u32) ^ (n0 as u32)) by (bit_vector);
    assert((c1 ^ n1) as u32 == (c1 as u32) ^ (n1 as u32)) by (bit_vector);
    assert((c2 ^ n2) as u32 == (c2 as u32) ^ (n2 as u32)) by (bit_vector);
    assert((c3 ^ n3) as u32 == (c3 as u32) ^ (n3 as u32)) by (bit_vector);
    let x = u32_value(b);
    let y = u32_value(m);
    assert(x == b0 + 256 * b1 + 65536 * b2 + 16777216 * b3);
    assert(y == m0 + 256 * m1 + 65536 * m2 + 16777216 * m3);
    assert((x ^ y) == (b0 ^ m0) + 256 * (b1 ^ m1) + 65536 * (b2 ^ m2) + 16777216 * (b3 ^ m3)) by (
        bit_vector)
        requires
            b0 < 256,
            b1 < 256,
            b2 < 256,
            b3 < 256,
            m0 < 256,
            m1 < 256,
            m2 < 256,
            m3 < 256,
            x == b0 + 256 * b1 + 65536 * b2 + 16777216 * b3,
            y == m0 + 256 * m1 + 65536 * m2 + 16777216 * m3,
    ;
    assert(r[0] == c0 ^ n0 && r[1] == c1 ^ n1 && r[2] == c2 ^ n2 && r[3] == c3 ^ n3);
}

/// A message is sent behind its key, and every block of four bytes is the block of the message
/// with the key of that block put over it.
#[verifier::spinoff_prover]
pub proof fn law_blocks_are_masked_by_their_keys(key: u32, data: Seq<u8>, n: int)
    requires
        0 <= n,
        4 * n + 4 <= data.len(),
    ensures
        u32_value(obfuscated(key, data)) == key,
        obfuscated(key, data).len() == 4 + data.len(),
        u32_value(obfuscated(key, data).skip(4 + 4 * n)) == u32_value(data.skip(4 * n)) ^ round_key(
            key,
            (n + 1) as nat,
        ),
{
    let hidden = masked(key, data);
    let k = round_key(key, (n + 1) as nat);
    lemma_u32_round_trip(key, hidden);
    lemma_u32_round_trip(k, Seq::empty());
    crate::wire::lemma_append_nothing(u32_bytes(k));
    let b = data.skip(4 * n);
    let m = u32_bytes(k);
    let r = obfuscated(key, data).skip(4 + 4 * n);
    assert forall|i: int| 0 <= i < 4 implies #[trigger] r[i] == b[i] ^ m[i] by {
        assert(r[i] == hidden[4 * n + i]);
        assert((4 * n + i) / 4 == n && (4 * n + i) % 4 == i);
    }
    lemma_bytes_are_masked_together(b, m, r);
}

/// Bytes shorter than a key hold no message.
pub proof fn law_short_bytes_hold_no_message(data: Seq<u8>)
    ensures
        deobfuscated(data) is None <==> data.len() < 4,
        deobfuscated(data) matches Some(message) ==> message.len() == data.len() - 4,
{
}

/// Bytes look plain where their length field is below a thousand and not zero, and its lowest
/// byte is 0 or 1.
pub proof fn law_plain_bytes_have_a_short_length(data: Seq<u8>)
    requires
        data.len() >= 4,
    ensures
        looks_plain(data) <==> 1 <= u32_value(data) <= 999 && u32_value(data) % 256 <= 1,
{
}

/// A message looks like the init message of a peer where it announces less than ten megabytes
/// but not nothing, and its type is 0 or 1.
pub proof fn law_init_messages_have_a_type(message: Seq<u8>)
    ensures
        looks_like_init(message) <==> message.len() >= 5 && 1 <= u32_value(message) <= 9_999_999
            && message[4] <= 1,
{
}

/// Rotating by 32 bits more is the same.
pub proof fn law_rotation_goes_round(value: u32, n: u32)
    requires
        n <= u32::MAX - 32,
    ensures
        rotated_right(value, (n + 32) as u32) == rotated_right(value, n),
        rotated_right(value, 0) == value,
        rotated_right(value, 32) == value,
{
}

} // verus!
