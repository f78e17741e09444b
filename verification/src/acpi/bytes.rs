//! Little-endian integer encodings and small byte-sequence helpers.
use vstd::prelude::*;

verus! {

/// The two little-endian bytes of `v`.
pub open spec fn le16(v: u16) -> Seq<u8> {
    seq![(v % 256) as u8, (v / 256) as u8]
}

/// The four little-endian bytes of `v`.
pub open spec fn le32(v: u32) -> Seq<u8> {
    seq![
        (v % 256) as u8,
        ((v / 0x100) % 256) as u8,
        ((v / 0x1_0000) % 256) as u8,
        (v / 0x100_0000) as u8,
    ]
}

/// The eight little-endian bytes of `v`.
pub open spec fn le64(v: u64) -> Seq<u8> {
    le32((v % 0x1_0000_0000) as u32) + le32((v / 0x1_0000_0000) as u32)
}

/// The little-endian value of two bytes.
pub open spec fn le16_value(b: Seq<u8>) -> int {
    b[0] + 256 * b[1]
}

/// The little-endian value of four bytes.
pub open spec fn le32_value(b: Seq<u8>) -> int {
    b[0] + 0x100 * b[1] + 0x1_0000 * b[2] + 0x100_0000 * b[3]
}

/// The little-endian value of eight bytes.
pub open spec fn le64_value(b: Seq<u8>) -> int {
    le32_value(b.subrange(0, 4)) + 0x1_0000_0000 * le32_value(b.subrange(4, 8))
}

/// `n` zero bytes.
pub open spec fn zeros(n: nat) -> Seq<u8> {
    Seq::new(n, |i: int| 0u8)
}

/// `s` with the bytes from `offset` on replaced by `t`.
pub open spec fn splice(s: Seq<u8>, offset: int, t: Seq<u8>) -> Seq<u8> {
    s.take(offset) + t + s.skip(offset + t.len())
}

/// Decoding the little-endian bytes of a 16-bit value gives it back.
pub proof fn lemma_le16_roundtrip(v: u16)
    ensures
        le16(v).len() == 2,
        le16_value(le16(v)) == v,
{
}

/// Decoding the little-endian bytes of a 32-bit value gives it back.
pub proof fn lemma_le32_roundtrip(v: u32)
    ensures
        le32(v).len() == 4,
        le32_value(le32(v)) == v,
{
}

/// Decoding the little-endian bytes of a 64-bit value gives it back.
pub proof fn lemma_le64_roundtrip(v: u64)
    ensures
        le64(v).len() == 8,
        le64_value(le64(v)) == v,
{
    let lo = (v % 0x1_0000_0000) as u32;
    let hi = (v / 0x1_0000_0000) as u32;
    lemma_le32_roundtrip(lo);
    lemma_le32_roundtrip(hi);
    assert(le64(v).subrange(0, 4) =~= le32(lo));
    assert(le64(v).subrange(4, 8) =~= le32(hi));
}

/// Appends the little-endian bytes of a 16-bit value.
pub fn push_u16(out: &mut Vec<u8>, v: u16)
    ensures
        final(out)@ == old(out)@ + le16(v),
{
    out.push((v % 256) as u8);
    out.push((v / 256) as u8);
    assert(final(out)@ =~= old(out)@ + le16(v));
}

/// Appends the little-endian bytes of a 32-bit value.
pub fn push_u32(out: &mut Vec<u8>, v: u32)
    ensures
        final(out)@ == old(out)@ + le32(v),
{
    out.push((v % 256) as u8);
    out.push(((v / 0x100) % 256) as u8);
    out.push(((v / 0x1_0000) % 256) as u8);
    out.push((v / 0x100_0000) as u8);
    assert(final(out)@ =~= old(out)@ + le32(v));
}

/// Appends the little-endian bytes of a 64-bit value.
pub fn push_u64(out: &mut Vec<u8>, v: u64)
    ensures
        final(out)@ == old(out)@ + le64(v),
{
    push_u32(out, (v % 0x1_0000_0000) as u32);
    push_u32(out, (v / 0x1_0000_0000) as u32);
    assert(final(out)@ =~= old(out)@ + le64(v));
}

/// Appends all bytes of `bytes`.
pub fn push_bytes(out: &mut Vec<u8>, bytes: &[u8])
    ensures
        final(out)@ == old(out)@ + bytes@,
{
    let mut i: usize = 0;
    while i < bytes.len()
        invariant
            i <= bytes@.len(),
            out@ == old(out)@ + bytes@.take(i as int),
        decreases bytes@.len() - i,
    {
        out.push(bytes[i]);
        i += 1;
        assert(out@ =~= old(out)@ + bytes@.take(i as int));
    }
    assert(bytes@.take(i as int) =~= bytes@);
}

/// Appends `n` zero bytes.
pub fn push_zeros(out: &mut Vec<u8>, n: usize)
    ensures
        final(out)@ == old(out)@ + zeros(n as nat),
{
    let mut i: usize = 0;
    while i < n
        invariant
            i <= n,
            out@ == old(out)@ + zeros(i as nat),
        decreases n - i,
    {
        out.push(0u8);
        i += 1;
        assert(out@ =~= old(out)@ + zeros(i as nat));
    }
}

/// Overwrites bytes of `body` from `offset` on with `t`.
pub fn patch_bytes(body: &mut Vec<u8>, offset: usize, t: &[u8])
    requires
        offset + t@.len() <= old(body)@.len(),
    ensures
        final(body)@ == splice(old(body)@, offset as int, t@),
{
    let mut i: usize = 0;
    while i < t.len()
        invariant
            i <= t@.len(),
            offset + t@.len() <= old(body)@.len(),
            body@.len() == old(body)@.len(),
            body@ == splice(old(body)@, offset as int, t@.take(i as int)),
        decreases t@.len() - i,
    {
        assert(body.len() == body@.len());
        body.set(offset + i, t[i]);
        i += 1;
        assert(body@ =~= splice(old(body)@, offset as int, t@.take(i as int)));
    }
    assert(t@.take(i as int) =~= t@);
}

/// Splicing into a region of zeros that follows a prefix keeps the prefix
/// and the zeros around the new bytes.
pub proof fn lemma_splice_into_zeros(p: Seq<u8>, n: nat, offset: int, t: Seq<u8>)
    requires
        p.len() <= offset,
        offset + t.len() <= p.len() + n,
    ensures
        splice(p + zeros(n), offset, t) == p + zeros((offset - p.len()) as nat) + t + zeros(
            (p.len() + n - offset - t.len()) as nat,
        ),
{
    assert(splice(p + zeros(n), offset, t) =~= p + zeros((offset - p.len()) as nat) + t + zeros(
        (p.len() + n - offset - t.len()) as nat,
    ));
}

} // verus!
