//! Big-endian integers on the wire.

use vstd::prelude::*;
use crate::error::DecodeError;

verus! {

/// The two bytes of `v`, most significant first.
pub open spec fn u16_bytes(v: u16) -> Seq<u8> {
    seq![(v / 256) as u8, (v % 256) as u8]
}

/// The 16-bit integer whose big-endian bytes are `hi`, `lo`.
pub open spec fn u16_of(hi: u8, lo: u8) -> u16 {
    (hi as int * 256 + lo as int) as u16
}

/// The four bytes of `v`, most significant first.
pub open spec fn u32_bytes(v: u32) -> Seq<u8> {
    seq![
        (v / 0x100_0000) as u8,
        ((v / 0x1_0000) % 256) as u8,
        ((v / 0x100) % 256) as u8,
        (v % 256) as u8,
    ]
}

/// The 32-bit integer whose big-endian bytes are `b0` to `b3`.
pub open spec fn u32_of(b0: u8, b1: u8, b2: u8, b3: u8) -> u32 {
    (b0 as int * 0x100_0000 + b1 as int * 0x1_0000 + b2 as int * 0x100 + b3 as int) as u32
}

/// Whether `n` bytes can be read from `bytes` starting at `pos`.
pub open spec fn has_bytes(bytes: Seq<u8>, pos: int, n: int) -> bool {
    0 <= pos && pos + n <= bytes.len()
}

/// The 16-bit big-endian integer at `pos`.
pub open spec fn u16_at(bytes: Seq<u8>, pos: int) -> u16
    recommends
        has_bytes(bytes, pos, 2),
{
    u16_of(bytes[pos], bytes[pos + 1])
}

/// The 32-bit big-endian integer at `pos`.
pub open spec fn u32_at(bytes: Seq<u8>, pos: int) -> u32
    recommends
        has_bytes(bytes, pos, 4),
{
    u32_of(bytes[pos], bytes[pos + 1], bytes[pos + 2], bytes[pos + 3])
}

/// Reading back the bytes of a 16-bit integer gives the integer.
pub proof fn lemma_u16_round_trip(v: u16)
    ensures
        u16_bytes(v).len() == 2,
        u16_of(u16_bytes(v)[0], u16_bytes(v)[1]) == v,
{
}

/// Reading back the bytes of a 32-bit integer gives the integer.
pub proof fn lemma_u32_round_trip(v: u32)
    ensures
        u32_bytes(v).len() == 4,
        u32_of(u32_bytes(v)[0], u32_bytes(v)[1], u32_bytes(v)[2], u32_bytes(v)[3]) == v,
{
}

/// Where a window of `bytes` holds `a` followed by `b`, its first part holds
/// `a` and the part behind that holds `b`.
pub proof fn lemma_split_window(bytes: Seq<u8>, pos: int, a: Seq<u8>, b: Seq<u8>)
    requires
        0 <= pos,
        pos + a.len() + b.len() <= bytes.len(),
        bytes.subrange(pos, pos + a.len() + b.len()) == a + b,
    ensures
        bytes.subrange(pos, pos + a.len()) == a,
        bytes.subrange(pos + a.len(), pos + a.len() + b.len()) == b,
{
    let w = bytes.subrange(pos, pos + a.len() + b.len());
    assert forall|i: int| 0 <= i < a.len() implies bytes[pos + i] == a[i] by {
        assert(w[i] == (a + b)[i]);
    }
    assert forall|i: int| 0 <= i < b.len() implies bytes[pos + a.len() + i] == b[i] by {
        assert(w[a.len() + i] == (a + b)[a.len() + i]);
    }
    assert(bytes.subrange(pos, pos + a.len()) =~= a);
    assert(bytes.subrange(pos + a.len(), pos + a.len() + b.len()) =~= b);
}

/// Where the two bytes at `pos` are those of `v`, the integer read there is `v`.
pub proof fn lemma_u16_at_window(bytes: Seq<u8>, pos: int, v: u16)
    requires
        0 <= pos,
        pos + 2 <= bytes.len(),
        bytes.subrange(pos, pos + 2) == u16_bytes(v),
    ensures
        u16_at(bytes, pos) == v,
{
    assert(bytes.subrange(pos, pos + 2)[0] == bytes[pos]);
    assert(bytes.subrange(pos, pos + 2)[1] == bytes[pos + 1]);
    lemma_u16_round_trip(v);
}

/// Where the four bytes at `pos` are those of `v`, the integer read there is `v`.
pub proof fn lemma_u32_at_window(bytes: Seq<u8>, pos: int, v: u32)
    requires
        0 <= pos,
        pos + 4 <= bytes.len(),
        bytes.subrange(pos, pos + 4) == u32_bytes(v),
    ensures
        u32_at(bytes, pos) == v,
{
    assert(bytes.subrange(pos, pos + 4)[0] == bytes[pos]);
    assert(bytes.subrange(pos, pos + 4)[1] == bytes[pos + 1]);
    assert(bytes.subrange(pos, pos + 4)[2] == bytes[pos + 2]);
    assert(bytes.subrange(pos, pos + 4)[3] == bytes[pos + 3]);
    lemma_u32_round_trip(v);
}

/// Reads a 16-bit big-endian integer at `offset`; fails when fewer than two
/// bytes are left. On success the second component is the offset behind it.
pub fn read_u16(input: &[u8], offset: usize) -> (r: Result<(u16, usize), DecodeError>)
    ensures
        match r {
            Ok((v, end)) => has_bytes(input@, offset as int, 2) && v == u16_at(
                input@,
                offset as int,
            ) && end == offset + 2,
            Err(e) => !has_bytes(input@, offset as int, 2) && e == DecodeError::Truncated,
        },
{
    if input.len() < 2 || offset > input.len() - 2 {
        return Err(DecodeError::Truncated);
    }
    let hi: u16 = input[offset] as u16;
    let lo: u16 = input[offset + 1] as u16;
    Ok((hi * 256 + lo, offset + 2))
}

/// Reads a 32-bit big-endian integer at `offset`; fails when fewer than four
/// bytes are left. On success the second component is the offset behind it.
pub fn read_u32(input: &[u8], offset: usize) -> (r: Result<(u32, usize), DecodeError>)
    ensures
        match r {
            Ok((v, end)) => has_bytes(input@, offset as int, 4) && v == u32_at(
                input@,
                offset as int,
            ) && end == offset + 4,
            Err(e) => !has_bytes(input@, offset as int, 4) && e == DecodeError::Truncated,
        },
{
    if input.len() < 4 || offset > input.len() - 4 {
        return Err(DecodeError::Truncated);
    }
    let b0: u32 = input[offset] as u32;
    let b1: u32 = input[offset + 1] as u32;
    let b2: u32 = input[offset + 2] as u32;
    let b3: u32 = input[offset + 3] as u32;
    Ok((b0 * 0x100_0000 + b1 * 0x1_0000 + b2 * 0x100 + b3, offset + 4))
}

/// Appends the two big-endian bytes of `v` to `output`.
pub fn push_u16(output: &mut Vec<u8>, v: u16)
    ensures
        final(output)@ == old(output)@ + u16_bytes(v),
{
    output.push((v / 256) as u8);
    output.push((v % 256) as u8);
    assert(output@ =~= old(output)@ + u16_bytes(v));
}

/// Appends the four big-endian bytes of `v` to `output`.
pub fn push_u32(output: &mut Vec<u8>, v: u32)
    ensures
        final(output)@ == old(output)@ + u32_bytes(v),
{
    output.push((v / 0x100_0000) as u8);
    output.push(((v / 0x1_0000) % 256) as u8);
    output.push(((v / 0x100) % 256) as u8);
    output.push((v % 256) as u8);
    assert(output@ =~= old(output)@ + u32_bytes(v));
}

/// Appends a copy of `bytes` to `output`.
pub fn push_bytes(output: &mut Vec<u8>, bytes: &[u8])
    ensures
        final(output)@ == old(output)@ + bytes@,
{
    let mut i: usize = 0;
    while i < bytes.len()
        invariant
            i <= bytes.len(),
            output@ == old(output)@ + bytes@.take(i as int),
        decreases bytes.len() - i,
    {
        output.push(bytes[i]);
        i += 1;
        assert(output@ =~= old(output)@ + bytes@.take(i as int));
    }
    assert(bytes@.take(bytes.len() as int) =~= bytes@);
}

/// A copy of the `n` bytes of `input` that start at `offset`.
pub fn copy_bytes(input: &[u8], offset: usize, n: usize) -> (r: Vec<u8>)
    requires
        offset + n <= input.len(),
    ensures
        r@ == input@.subrange(offset as int, offset + n),
{
    let mut out: Vec<u8> = Vec::new();
    let mut i: usize = 0;
    while i < n
        invariant
            i <= n,
            offset + n <= input.len(),
            out@ == input@.subrange(offset as int, offset + i),
        decreases n - i,
    {
        out.push(input[offset + i]);
        i += 1;
        assert(out@ =~= input@.subrange(offset as int, offset + i));
    }
    out
}

} // verus!
