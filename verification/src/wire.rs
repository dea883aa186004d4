//! Reading and writing bytes: numbers of fixed width, fields that announce
//! their length, and keys.
//!
//! A reader of a value takes it from the front of the bytes and says what is
//! left; it reads nothing where the bytes end too early.

use crate::bytes::{append_bytes, be_bytes_u16, u16_to_be};
use crate::committee::EcdsaPublic;
use vstd::prelude::*;

verus! {

/// The four bytes of `x`, most significant first.
pub open spec fn be_bytes_u32(x: u32) -> Seq<u8> {
    seq![
        (x / 0x100_0000) as u8,
        ((x / 0x1_0000) % 0x100) as u8,
        ((x / 0x100) % 0x100) as u8,
        (x % 0x100) as u8,
    ]
}

/// A field: the length of `content` in four bytes, then `content`.
pub open spec fn field(content: Seq<u8>) -> Seq<u8> {
    be_bytes_u32(content.len() as u32) + content
}

/// The key with the given bytes.
pub open spec fn key_of(bytes: Seq<u8>) -> EcdsaPublic {
    choose|key: EcdsaPublic| key.bytes@ == bytes
}

/// Reads one byte.
pub open spec fn parse_u8(b: Seq<u8>) -> Option<(u8, Seq<u8>)> {
    if b.len() < 1 {
        None
    } else {
        Some((b[0], b.skip(1)))
    }
}

/// Reads a number of two bytes.
pub open spec fn parse_u16(b: Seq<u8>) -> Option<(u16, Seq<u8>)> {
    if b.len() < 2 {
        None
    } else {
        Some(((b[0] as int * 0x100 + b[1] as int) as u16, b.skip(2)))
    }
}

/// Reads a number of four bytes.
pub open spec fn parse_u32(b: Seq<u8>) -> Option<(u32, Seq<u8>)> {
    if b.len() < 4 {
        None
    } else {
        Some(
            (
                (b[0] as int * 0x100_0000 + b[1] as int * 0x1_0000 + b[2] as int * 0x100
                    + b[3] as int) as u32,
                b.skip(4),
            ),
        )
    }
}

/// Reads `n` bytes.
pub open spec fn parse_exact(b: Seq<u8>, n: nat) -> Option<(Seq<u8>, Seq<u8>)> {
    if b.len() < n {
        None
    } else {
        Some((b.take(n as int), b.skip(n as int)))
    }
}

/// Reads a field.
pub open spec fn parse_field(b: Seq<u8>) -> Option<(Seq<u8>, Seq<u8>)> {
    match parse_u32(b) {
        None => None,
        Some((n, rest)) => parse_exact(rest, n as nat),
    }
}

/// Reads a key.
pub open spec fn parse_key(b: Seq<u8>) -> Option<(EcdsaPublic, Seq<u8>)> {
    match parse_exact(b, 33) {
        None => None,
        Some((bytes, rest)) => Some((key_of(bytes), rest)),
    }
}

/// The key with the bytes of `key` is `key`.
pub proof fn lemma_key_of(key: EcdsaPublic)
    ensures
        key_of(key.bytes@) == key,
{
    let found = key_of(key.bytes@);
    assert(found.bytes@ == key.bytes@);
    assert(found.bytes =~= key.bytes);
}

/// A key whose first `k` bytes are those of `bytes`.
proof fn key_with_prefix(bytes: Seq<u8>, k: int) -> (key: EcdsaPublic)
    requires
        0 <= k <= 33,
        bytes.len() == 33,
    ensures
        forall|j: int| 0 <= j < k ==> key.bytes@[j] == bytes[j],
    decreases k,
{
    if k == 0 {
        arbitrary()
    } else {
        let shorter = key_with_prefix(bytes, k - 1);
        let key = EcdsaPublic {
            bytes: vstd::array::spec_array_update(shorter.bytes, k - 1, bytes[k - 1]),
        };
        assert forall|j: int| 0 <= j < k implies key.bytes@[j] == bytes[j] by {
            if j < k - 1 {
                assert(shorter.bytes@[j] == bytes[j]);
            }
        }
        key
    }
}

/// Thirty-three bytes are the bytes of a key.
pub proof fn lemma_key_exists(bytes: Seq<u8>)
    requires
        bytes.len() == 33,
    ensures
        key_of(bytes).bytes@ == bytes,
{
    let key = key_with_prefix(bytes, 33);
    assert(key.bytes@ =~= bytes);
}

/// What is read as a key was written as that key.
pub proof fn lemma_key_sound(b: Seq<u8>)
    ensures
        parse_key(b) matches Some((key, rest)) ==> b == key.bytes@ + rest,
{
    if let Some((key, rest)) = parse_key(b) {
        lemma_key_exists(b.take(33));
        assert(b =~= b.take(33) + b.skip(33));
    }
}

/// What was written as a number of two bytes is read as that number.
pub proof fn lemma_u16_round_trip(x: u16, tail: Seq<u8>)
    ensures
        parse_u16(be_bytes_u16(x) + tail) == Some((x, tail)),
{
    let b = be_bytes_u16(x) + tail;
    assert(b[0] == (x / 0x100) as u8 && b[1] == (x % 0x100) as u8);
    assert(b.skip(2) =~= tail);
}

/// What is read as a number of two bytes was written as that number.
pub proof fn lemma_u16_sound(b: Seq<u8>)
    ensures
        parse_u16(b) matches Some((x, rest)) ==> b == be_bytes_u16(x) + rest,
{
    if let Some((x, rest)) = parse_u16(b) {
        assert(b =~= be_bytes_u16(x) + rest);
    }
}

/// What was written as a number of four bytes is read as that number.
pub proof fn lemma_u32_round_trip(x: u32, tail: Seq<u8>)
    ensures
        parse_u32(be_bytes_u32(x) + tail) == Some((x, tail)),
{
    let b = be_bytes_u32(x) + tail;
    assert(b[0] == (x / 0x100_0000) as u8 && b[1] == ((x / 0x1_0000) % 0x100) as u8 && b[2] == ((x
        / 0x100) % 0x100) as u8 && b[3] == (x % 0x100) as u8);
    assert(b.skip(4) =~= tail);
}

/// The digits of a number with four digits to the base 256.
proof fn lemma_u32_digits(b0: u8, b1: u8, b2: u8, b3: u8)
    ensures
        ({
            let x = b0 as int * 0x100_0000 + b1 as int * 0x1_0000 + b2 as int * 0x100 + b3 as int;
            &&& 0 <= x <= u32::MAX
            &&& x / 0x100_0000 == b0
            &&& (x / 0x1_0000) % 0x100 == b1
            &&& (x / 0x100) % 0x100 == b2
            &&& x % 0x100 == b3
        }),
{
    let low = b2 as int * 0x100 + b3 as int;
    let mid = b1 as int * 0x1_0000 + low;
    let x = b0 as int * 0x100_0000 + mid;
    assert(low / 0x100 == b2 && low % 0x100 == b3);
    assert(mid / 0x1_0000 == b1 && mid % 0x100 == b3 && (mid / 0x100) % 0x100 == b2);
    assert(x / 0x100_0000 == b0);
    assert(x / 0x1_0000 == b0 as int * 0x100 + b1);
    assert(x / 0x100 == b0 as int * 0x1_0000 + b1 as int * 0x100 + b2);
}

/// What is read as a number of four bytes was written as that number.
pub proof fn lemma_u32_sound(b: Seq<u8>)
    ensures
        parse_u32(b) matches Some((x, rest)) ==> b == be_bytes_u32(x) + rest,
{
    if let Some((x, rest)) = parse_u32(b) {
        lemma_u32_digits(b[0], b[1], b[2], b[3]);
        assert(be_bytes_u32(x) =~= seq![b[0], b[1], b[2], b[3]]);
        assert(b =~= be_bytes_u32(x) + rest);
    }
}

/// What was written as a field is read as its content.
pub proof fn lemma_field_round_trip(content: Seq<u8>, tail: Seq<u8>)
    requires
        content.len() <= u32::MAX,
    ensures
        parse_field(field(content) + tail) == Some((content, tail)),
{
    lemma_u32_round_trip(content.len() as u32, content + tail);
    assert(field(content) + tail =~= be_bytes_u32(content.len() as u32) + (content + tail));
    assert((content + tail).take(content.len() as int) =~= content);
    assert((content + tail).skip(content.len() as int) =~= tail);
}

/// What is read as a field was written as a field.
pub proof fn lemma_field_sound(b: Seq<u8>)
    ensures
        parse_field(b) matches Some((content, rest)) ==> b == field(content) + rest
            && content.len() <= u32::MAX,
{
    if let Some((content, rest)) = parse_field(b) {
        lemma_u32_sound(b);
        let (n, after) = parse_u32(b)->Some_0;
        assert(after =~= content + rest);
        assert(b =~= field(content) + rest);
    }
}

/// What was written as a key is read as that key.
pub proof fn lemma_key_round_trip(key: EcdsaPublic, tail: Seq<u8>)
    ensures
        parse_key(key.bytes@ + tail) == Some((key, tail)),
{
    lemma_key_of(key);
    assert((key.bytes@ + tail).take(33) =~= key.bytes@);
    assert((key.bytes@ + tail).skip(33) =~= tail);
}

/// Writes a number of four bytes.
pub fn u32_to_be(x: u32) -> (out: [u8; 4])
    ensures
        out@ == be_bytes_u32(x),
{
    let out: [u8; 4] = [
        (x / 0x100_0000) as u8,
        ((x / 0x1_0000) % 0x100) as u8,
        ((x / 0x100) % 0x100) as u8,
        (x % 0x100) as u8,
    ];
    assert(out@ =~= be_bytes_u32(x));
    out
}

/// Appends a number of two bytes.
pub fn write_u16(buf: &mut Vec<u8>, x: u16)
    ensures
        final(buf)@ == old(buf)@ + be_bytes_u16(x),
{
    let bytes = u16_to_be(x);
    append_bytes(buf, bytes.as_slice());
}

/// Appends `content` as a field.
pub fn write_field(buf: &mut Vec<u8>, content: &[u8])
    requires
        content@.len() <= u32::MAX,
    ensures
        final(buf)@ == old(buf)@ + field(content@),
{
    let length = u32_to_be(content.len() as u32);
    append_bytes(buf, length.as_slice());
    append_bytes(buf, content);
    assert(buf@ =~= old(buf)@ + field(content@));
}

/// Reads one byte at `pos`.
pub fn read_u8(bytes: &[u8], pos: usize) -> (out: Option<(u8, usize)>)
    requires
        pos <= bytes@.len(),
    ensures
        match out {
            Some((value, next)) => pos <= next <= bytes@.len() && parse_u8(bytes@.skip(pos as int))
                == Some((value, bytes@.skip(next as int))),
            None => parse_u8(bytes@.skip(pos as int)) is None,
        },
{
    if bytes.len() - pos < 1 {
        return None;
    }
    assert(bytes@.skip(pos as int).skip(1) =~= bytes@.skip(pos + 1));
    Some((bytes[pos], pos + 1))
}

/// Reads a number of two bytes at `pos`.
pub fn read_u16(bytes: &[u8], pos: usize) -> (out: Option<(u16, usize)>)
    requires
        pos <= bytes@.len(),
    ensures
        match out {
            Some((value, next)) => pos <= next <= bytes@.len() && parse_u16(
                bytes@.skip(pos as int),
            ) == Some((value, bytes@.skip(next as int))),
            None => parse_u16(bytes@.skip(pos as int)) is None,
        },
{
    if bytes.len() - pos < 2 {
        return None;
    }
    assert(bytes@.skip(pos as int).skip(2) =~= bytes@.skip(pos + 2));
    let value: u16 = bytes[pos] as u16 * 0x100 + bytes[pos + 1] as u16;
    Some((value, pos + 2))
}

/// Reads a number of four bytes at `pos`.
pub fn read_u32(bytes: &[u8], pos: usize) -> (out: Option<(u32, usize)>)
    requires
        pos <= bytes@.len(),
    ensures
        match out {
            Some((value, next)) => pos <= next <= bytes@.len() && parse_u32(
                bytes@.skip(pos as int),
            ) == Some((value, bytes@.skip(next as int))),
            None => parse_u32(bytes@.skip(pos as int)) is None,
        },
{
    if bytes.len() - pos < 4 {
        return None;
    }
    assert(bytes@.skip(pos as int).skip(4) =~= bytes@.skip(pos + 4));
    let value: u32 = bytes[pos] as u32 * 0x100_0000 + bytes[pos + 1] as u32 * 0x1_0000 + bytes[pos
        + 2] as u32 * 0x100 + bytes[pos + 3] as u32;
    Some((value, pos + 4))
}

/// Reads `n` bytes at `pos`.
pub fn read_exact(bytes: &[u8], pos: usize, n: usize) -> (out: Option<(Vec<u8>, usize)>)
    requires
        pos <= bytes@.len(),
    ensures
        match out {
            Some((value, next)) => pos <= next <= bytes@.len() && parse_exact(
                bytes@.skip(pos as int),
                n as nat,
            ) == Some((value@, bytes@.skip(next as int))),
            None => parse_exact(bytes@.skip(pos as int), n as nat) is None,
        },
{
    if bytes.len() - pos < n {
        return None;
    }
    let mut value: Vec<u8> = Vec::new();
    let mut i: usize = 0;
    while i < n
        invariant
            i <= n,
            pos + n <= bytes@.len() <= usize::MAX,
            value@ == bytes@.subrange(pos as int, pos + i),
        decreases n - i,
    {
        value.push(bytes[pos + i]);
        assert(value@ =~= bytes@.subrange(pos as int, pos + i + 1));
        i += 1;
    }
    assert(value@ =~= bytes@.skip(pos as int).take(n as int));
    assert(bytes@.skip(pos as int).skip(n as int) =~= bytes@.skip(pos + n));
    Some((value, pos + n))
}

/// Reads a field at `pos`.
pub fn read_field(bytes: &[u8], pos: usize) -> (out: Option<(Vec<u8>, usize)>)
    requires
        pos <= bytes@.len(),
    ensures
        match out {
            Some((value, next)) => pos <= next <= bytes@.len() && parse_field(
                bytes@.skip(pos as int),
            ) == Some((value@, bytes@.skip(next as int))),
            None => parse_field(bytes@.skip(pos as int)) is None,
        },
{
    let (length, after) = match read_u32(bytes, pos) {
        Some(read) => read,
        None => {
            return None;
        },
    };
    read_exact(bytes, after, length as usize)
}

/// Reads a key at `pos`.
pub fn read_key(bytes: &[u8], pos: usize) -> (out: Option<(EcdsaPublic, usize)>)
    requires
        pos <= bytes@.len(),
    ensures
        match out {
            Some((value, next)) => pos <= next <= bytes@.len() && parse_key(
                bytes@.skip(pos as int),
            ) == Some((value, bytes@.skip(next as int))),
            None => parse_key(bytes@.skip(pos as int)) is None,
        },
{
    if bytes.len() - pos < 33 {
        return None;
    }
    let mut key = EcdsaPublic { bytes: [0u8; 33] };
    let mut i: usize = 0;
    while i < 33
        invariant
            i <= 33,
            pos + 33 <= bytes@.len() <= usize::MAX,
            forall|j: int| 0 <= j < i ==> key.bytes@[j] == bytes@[pos + j],
        decreases 33 - i,
    {
        key.bytes[i] = bytes[pos + i];
        i += 1;
    }
    proof {
        assert(key.bytes@ =~= bytes@.skip(pos as int).take(33));
        lemma_key_of(key);
        assert(bytes@.skip(pos as int).skip(33) =~= bytes@.skip(pos + 33));
    }
    Some((key, pos + 33))
}

} // verus!
