//! Byte-level building blocks: big-endian integers, ASCII salts, and copying
//! and comparing byte strings.

use vstd::prelude::*;

verus! {

/// The two bytes of `x`, most significant first.
pub open spec fn be_bytes_u16(x: u16) -> Seq<u8> {
    seq![(x / 0x100) as u8, (x % 0x100) as u8]
}

/// The byte of `x` that has weight `256^k`.
pub open spec fn byte_at(x: u64, k: nat) -> u8
    decreases k,
{
    if k == 0 {
        (x % 0x100) as u8
    } else {
        byte_at(x / 0x100, (k - 1) as nat)
    }
}

/// The eight bytes of `x`, most significant first.
pub open spec fn be_bytes_u64(x: u64) -> Seq<u8> {
    Seq::new(8, |i: int| byte_at(x, (7 - i) as nat))
}

/// The bytes of an ASCII text, one per character.
pub open spec fn ascii_bytes(text: Seq<char>) -> Seq<u8> {
    Seq::new(text.len(), |i: int| text[i] as u8)
}

/// Big-endian encoding of a `u16`.
pub fn u16_to_be(x: u16) -> (out: [u8; 2])
    ensures
        out@ == be_bytes_u16(x),
{
    let out: [u8; 2] = [(x / 0x100) as u8, (x % 0x100) as u8];
    assert(out@ =~= be_bytes_u16(x));
    out
}

/// Big-endian encoding of a `u64`.
pub fn u64_to_be(x: u64) -> (out: [u8; 8])
    ensures
        out@ == be_bytes_u64(x),
{
    let mut out: [u8; 8] = [0u8; 8];
    let mut rest: u64 = x;
    let mut k: usize = 0;
    while k < 8
        invariant
            k <= 8,
            out@.len() == 8,
            forall|j: int| 8 - k <= j < 8 ==> out@[j] == byte_at(x, (7 - j) as nat),
            forall|m: nat| #[trigger] byte_at(rest, m) == byte_at(x, m + k as nat),
        decreases 8 - k,
    {
        let ghost before = rest;
        out[7 - k] = (rest % 0x100) as u8;
        rest = rest / 0x100;
        proof {
            assert(byte_at(before, 0) == byte_at(x, k as nat));
            assert forall|m: nat| #[trigger] byte_at(rest, m) == byte_at(x, m + k as nat + 1) by {
                assert(byte_at(before, m + 1) == byte_at(rest, m));
                assert(byte_at(before, m + 1) == byte_at(x, m + 1 + k as nat));
            }
        }
        k += 1;
    }
    assert(out@ =~= be_bytes_u64(x));
    out
}

/// Appends the bytes of `tail` to `buf`.
pub fn append_bytes(buf: &mut Vec<u8>, tail: &[u8])
    ensures
        final(buf)@ == old(buf)@ + tail@,
{
    let mut i: usize = 0;
    while i < tail.len()
        invariant
            i <= tail@.len(),
            buf@ == old(buf)@ + tail@.subrange(0, i as int),
        decreases tail@.len() - i,
    {
        buf.push(tail[i]);
        assert(buf@ =~= old(buf)@ + tail@.subrange(0, i as int + 1));
        i += 1;
    }
    assert(tail@.subrange(0, i as int) =~= tail@);
}

/// Appends the bytes of an ASCII text to `buf`.
pub fn append_ascii(buf: &mut Vec<u8>, text: &str)
    requires
        text.is_ascii(),
    ensures
        final(buf)@ == old(buf)@ + ascii_bytes(text@),
{
    let raw = text.as_bytes();
    proof {
        vstd::string::is_ascii_spec_bytes(text);
        assert(raw@ =~= ascii_bytes(text@));
    }
    append_bytes(buf, raw);
}

/// Whether two byte strings hold the same bytes.
pub fn bytes_equal(a: &[u8], b: &[u8]) -> (same: bool)
    ensures
        same == (a@ == b@),
{
    if a.len() != b.len() {
        return false;
    }
    let mut i: usize = 0;
    while i < a.len()
        invariant
            a@.len() == b@.len(),
            i <= a@.len(),
            forall|j: int| 0 <= j < i ==> a@[j] == b@[j],
        decreases a@.len() - i,
    {
        if a[i] != b[i] {
            return false;
        }
        i += 1;
    }
    assert(a@ =~= b@);
    true
}

/// A copy of a sequence of plain values.
pub fn copy_all<T: Copy>(source: &[T]) -> (out: Vec<T>)
    ensures
        out@ == source@,
{
    let mut out: Vec<T> = Vec::new();
    let mut i: usize = 0;
    while i < source.len()
        invariant
            i <= source@.len(),
            out@ == source@.subrange(0, i as int),
        decreases source@.len() - i,
    {
        out.push(source[i]);
        assert(out@ =~= source@.subrange(0, i as int + 1));
        i += 1;
    }
    assert(source@.subrange(0, i as int) =~= source@);
    out
}

/// `x` with its `m` low bytes dropped.
spec fn high_part(x: u64, m: nat) -> u64
    decreases m,
{
    if m == 0 {
        x
    } else {
        high_part(x / 0x100, (m - 1) as nat)
    }
}

proof fn lemma_low_bytes_and_high_part(a: u64, b: u64, m: nat)
    requires
        forall|k: nat| k < m ==> byte_at(a, k) == byte_at(b, k),
        high_part(a, m) == high_part(b, m),
    ensures
        a == b,
    decreases m,
{
    if m > 0 {
        let a_high: u64 = a / 0x100;
        let b_high: u64 = b / 0x100;
        assert forall|k: nat| k < m - 1 implies #[trigger] byte_at(a_high, k) == byte_at(
            b_high,
            k,
        ) by {
            assert(byte_at(a, k + 1) == byte_at(a_high, k));
            assert(byte_at(b, k + 1) == byte_at(b_high, k));
        }
        lemma_low_bytes_and_high_part(a_high, b_high, (m - 1) as nat);
        assert(byte_at(a, 0) == byte_at(b, 0));
    }
}

/// Different numbers have different big-endian encodings.
pub proof fn lemma_be_bytes_u64_injective(a: u64, b: u64)
    requires
        be_bytes_u64(a) == be_bytes_u64(b),
    ensures
        a == b,
{
    assert forall|k: nat| k < 8 implies byte_at(a, k) == byte_at(b, k) by {
        assert(be_bytes_u64(a)[7 - k] == byte_at(a, k));
        assert(be_bytes_u64(b)[7 - k] == byte_at(b, k));
    }
    assert(high_part(a, 8) == 0 && high_part(b, 8) == 0) by {
        reveal_with_fuel(high_part, 9);
    }
    lemma_low_bytes_and_high_part(a, b, 8);
}

} // verus!
