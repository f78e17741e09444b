//! ACPI Machine Language (AML) encoding: integers, package lengths, name
//! strings, EISA IDs, the terms the DSDT is made of, and a small tree of
//! nodes and values that encodes itself.
use vstd::prelude::*;
use vstd::string::*;
use crate::acpi::bytes::{
    le16, le16_value, le32, le32_value, le64, le64_value, lemma_le16_roundtrip,
    lemma_le32_roundtrip, lemma_le64_roundtrip, push_bytes, push_u16, push_u32, push_u64,
};
use crate::acpi::text::utf8;

verus! {

// ---------------------------------------------------------------------
// Lengths of byte slices.
// ---------------------------------------------------------------------

/// The length of a byte slice, by `<[u8]>::len`. Trusted: the result is
/// the number of bytes, and it is at most `isize::MAX`, since Rust never
/// makes a slice of more than `isize::MAX` bytes (the safety conditions of
/// `std::slice::from_raw_parts`). The length arithmetic of package encoding
/// relies on that bound.
#[verifier::external_body]
pub(crate) fn byte_len(bytes: &[u8]) -> (n: usize)
    ensures
        n == bytes@.len(),
        n <= isize::MAX,
{
    bytes.len()
}

// ---------------------------------------------------------------------
// Integers.
// ---------------------------------------------------------------------

/// The shortest AML encoding of an integer constant: ZeroOp, OneOp, or a
/// byte, word, dword or qword prefix followed by the little-endian value.
pub open spec fn int_bytes(v: u64) -> Seq<u8> {
    if v == 0 {
        seq![0x00u8]
    } else if v == 1 {
        seq![0x01u8]
    } else if v <= 0xff {
        seq![0x0au8, v as u8]
    } else if v <= 0xffff {
        seq![0x0bu8] + le16(v as u16)
    } else if v <= 0xffff_ffff {
        seq![0x0cu8] + le32(v as u32)
    } else {
        seq![0x0eu8] + le64(v)
    }
}

/// An integer constant decodes back to its value, in the shortest form:
/// `ZeroOp` and `OneOp` for 0 and 1, otherwise a byte, word, dword or
/// qword prefix (0x0a, 0x0b, 0x0c, 0x0e) followed by the value in
/// little-endian order, the prefix being the smallest that holds it.
#[verifier::spinoff_prover]
pub proof fn lemma_int_bytes_decode(v: u64)
    ensures
        ({
            let b = int_bytes(v);
            &&& b.len() >= 1
            &&& b[0] == 0 || b[0] == 1 || b[0] == 0x0a || b[0] == 0x0b || b[0] == 0x0c || b[0]
                == 0x0e
            &&& b[0] == 0 ==> b.len() == 1 && v == 0
            &&& b[0] == 1 ==> b.len() == 1 && v == 1
            &&& b[0] == 0x0a ==> b.len() == 2 && v == b[1] && 2 <= v
            &&& b[0] == 0x0b ==> b.len() == 3 && v == le16_value(b.subrange(1, 3)) && 0xff < v
            &&& b[0] == 0x0c ==> b.len() == 5 && v == le32_value(b.subrange(1, 5)) && 0xffff < v
            &&& b[0] == 0x0e ==> b.len() == 9 && v == le64_value(b.subrange(1, 9)) && 0xffff_ffff
                < v
        }),
{
    let b = int_bytes(v);
    if v > 1 && v <= 0xff {
    } else if v > 0xff && v <= 0xffff {
        lemma_le16_roundtrip(v as u16);
        assert(b.subrange(1, 3) =~= le16(v as u16));
    } else if v > 0xffff && v <= 0xffff_ffff {
        lemma_le32_roundtrip(v as u32);
        assert(b.subrange(1, 5) =~= le32(v as u32));
    } else if v > 0xffff_ffff {
        lemma_le64_roundtrip(v);
        assert(b.subrange(1, 9) =~= le64(v));
    }
}

/// Appends the AML encoding of an integer constant.
pub fn encode_integer(value: u64, out: &mut Vec<u8>)
    ensures
        final(out)@ == old(out)@ + int_bytes(value),
{
    if value == 0 {
        out.push(0x00);
    } else if value == 1 {
        out.push(0x01);
    } else if value <= 0xff {
        out.push(0x0a);
        out.push(value as u8);
    } else if value <= 0xffff {
        out.push(0x0b);
        push_u16(out, value as u16);
    } else if value <= 0xffff_ffff {
        out.push(0x0c);
        push_u32(out, value as u32);
    } else {
        out.push(0x0e);
        push_u64(out, value);
    }
    assert(final(out)@ =~= old(out)@ + int_bytes(value));
}

// ---------------------------------------------------------------------
// Package lengths.
// ---------------------------------------------------------------------

/// How many bytes the package length of a body of `body_len` bytes takes.
pub open spec fn pkg_length_size_of(body_len: nat) -> nat {
    let total = body_len + 1;
    if total < 0x40 {
        1
    } else if total < 0x1000 {
        2
    } else if total < 0x10_0000 {
        3
    } else {
        4
    }
}

/// The PkgLength encoding of `length`: one byte below 0x40, otherwise a
/// lead byte with the byte count in its top two bits and the low nibble of
/// the length, followed by the rest of the length in 8-bit steps.
pub open spec fn pkg_length_bytes(length: nat) -> Seq<u8> {
    if length < 0x40 {
        seq![length as u8]
    } else if length < 0x1000 {
        seq![(0x40 + length % 16) as u8, (length / 16) as u8]
    } else if length < 0x10_0000 {
        seq![(0x80 + length % 16) as u8, ((length / 16) % 256) as u8, (length / 0x1000) as u8]
    } else {
        seq![
            (0xc0 + length % 16) as u8,
            ((length / 16) % 256) as u8,
            ((length / 0x1000) % 256) as u8,
            ((length / 0x10_0000) % 256) as u8,
        ]
    }
}

/// A package: the package length (which counts itself and the body)
/// followed by the body.
pub open spec fn pkg(body: Seq<u8>) -> Seq<u8> {
    pkg_length_bytes(body.len() + pkg_length_size_of(body.len())) + body
}

/// How many bytes the package length of a body of `body_len` bytes takes.
pub fn pkg_length_size(body_len: usize) -> (n: usize)
    requires
        body_len < usize::MAX,
    ensures
        n == pkg_length_size_of(body_len as nat),
{
    let total = body_len + 1;
    if total < 0x40 {
        1
    } else if total < 0x1_000 {
        2
    } else if total < 0x10_0000 {
        3
    } else {
        4
    }
}

/// Appends the PkgLength encoding of `length`.
pub fn encode_pkg_length(length: usize, out: &mut Vec<u8>)
    ensures
        final(out)@ == old(out)@ + pkg_length_bytes(length as nat),
{
    if length < 0x40 {
        out.push(length as u8);
    } else if length < 0x1_000 {
        out.push((0x40 + length % 16) as u8);
        out.push((length / 16) as u8);
    } else if length < 0x10_0000 {
        out.push((0x80 + length % 16) as u8);
        out.push(((length / 16) % 256) as u8);
        out.push((length / 0x1000) as u8);
    } else {
        out.push((0xc0 + length % 16) as u8);
        out.push(((length / 16) % 256) as u8);
        out.push(((length / 0x1000) % 256) as u8);
        out.push(((length / 0x10_0000) % 256) as u8);
    }
    assert(final(out)@ =~= old(out)@ + pkg_length_bytes(length as nat));
}

/// Appends `body` as a package: its package length, then the body.
pub fn encode_pkg(out: &mut Vec<u8>, body: &[u8])
    ensures
        final(out)@ == old(out)@ + pkg(body@),
{
    let n = byte_len(body);
    let size = pkg_length_size(n);
    encode_pkg_length(n + size, out);
    push_bytes(out, body);
    assert(final(out)@ =~= old(out)@ + pkg(body@));
}

/// A PkgLength decodes back to its length: the top two bits of the lead
/// byte give the count of bytes that follow; with none, the lead byte is
/// the length; otherwise bits 4 and 5 of the lead byte are clear, its low
/// nibble is the low four bits of the length and each following byte the
/// next eight bits. The short form is used exactly for lengths below 0x40.
#[verifier::spinoff_prover]
pub proof fn lemma_pkg_length_decodes(length: nat)
    requires
        length < 0x1000_0000,
    ensures
        1 <= pkg_length_bytes(length).len() <= 4,
        pkg_length_bytes(length)[0] / 64 == pkg_length_bytes(length).len() - 1,
        (pkg_length_bytes(length).len() == 1) == (length < 0x40),
        pkg_length_bytes(length).len() == 1 ==> pkg_length_bytes(length)[0] == length,
        pkg_length_bytes(length).len() > 1 ==> pkg_length_bytes(length)[0] % 64 < 16,
        pkg_length_bytes(length).len() == 2 ==> pkg_length_bytes(length)[0] % 16 + 16
            * pkg_length_bytes(length)[1] == length,
        pkg_length_bytes(length).len() == 3 ==> pkg_length_bytes(length)[0] % 16 + 16
            * pkg_length_bytes(length)[1] + 0x1000 * pkg_length_bytes(length)[2] == length,
        pkg_length_bytes(length).len() == 4 ==> pkg_length_bytes(length)[0] % 16 + 16
            * pkg_length_bytes(length)[1] + 0x1000 * pkg_length_bytes(length)[2] + 0x10_0000
            * pkg_length_bytes(length)[3] == length,
{
    let b = pkg_length_bytes(length);
    let l = length as int;
    if l < 0x40 {
    } else if l < 0x1000 {
        assert(b[0] == 0x40 + l % 16);
        assert(b[1] == l / 16);
        assert(l % 16 + 16 * (l / 16) == l);
    } else if l < 0x10_0000 {
        assert(b[0] == 0x80 + l % 16);
        assert(b[1] == (l / 16) % 256);
        assert(b[2] == l / 0x1000);
        assert(l % 16 + 16 * ((l / 16) % 256) + 0x1000 * (l / 0x1000) == l) by (nonlinear_arith)
            requires
                0 <= l,
        {
            assert(l / 0x1000 == (l / 16) / 256);
        }
    } else {
        assert(b[0] == 0xc0 + l % 16);
        assert(b[1] == (l / 16) % 256);
        assert(b[2] == (l / 0x1000) % 256);
        assert(b[3] == (l / 0x10_0000) % 256);
        assert((l / 0x10_0000) % 256 == l / 0x10_0000);
        assert(l % 16 + 16 * ((l / 16) % 256) + 0x1000 * ((l / 0x1000) % 256) + 0x10_0000 * (l
            / 0x10_0000) == l) by (nonlinear_arith)
            requires
                0 <= l,
        {
            assert(l / 0x1000 == (l / 16) / 256);
            assert(l / 0x10_0000 == (l / 0x1000) / 256);
        }
    }
}

/// The package length field counts exactly the bytes of the package,
/// except for three body lengths just below a size step, where the size is
/// reckoned one byte short.
pub proof fn lemma_pkg_length_consistent(body_len: nat)
    requires
        body_len != 4094,
        body_len != 1048573,
        body_len != 1048574,
        body_len + 4 < 0x1000_0000,
    ensures
        pkg_length_bytes(body_len + pkg_length_size_of(body_len)).len() == pkg_length_size_of(
            body_len,
        ),
{
}

// ---------------------------------------------------------------------
// Name strings.
// ---------------------------------------------------------------------

/// A four-byte name segment: the first four bytes of `segment`, padded
/// with underscores.
pub open spec fn name_seg_bytes(segment: Seq<u8>) -> Seq<u8> {
    Seq::new(4, |i: int| if i < segment.len() { segment[i] } else { 0x5fu8 })
}

/// The non-empty segments of `s` separated by dots, where `cur` is the
/// segment read so far.
pub open spec fn split_segments(s: Seq<u8>, cur: Seq<u8>) -> Seq<Seq<u8>>
    decreases s.len(),
{
    if s.len() == 0 {
        if cur.len() > 0 {
            seq![cur]
        } else {
            Seq::empty()
        }
    } else if s[0] == 0x2e {
        (if cur.len() > 0 {
            seq![cur]
        } else {
            Seq::empty()
        }) + split_segments(s.drop_first(), Seq::empty())
    } else {
        split_segments(s.drop_first(), cur.push(s[0]))
    }
}

/// Whether a name starts at the root (with a backslash).
pub open spec fn is_rooted(name: Seq<u8>) -> bool {
    name.len() > 0 && name[0] == 0x5c
}

/// The dot-separated, non-empty segments of a name, after the root
/// prefix.
pub open spec fn name_segments(name: Seq<u8>) -> Seq<Seq<u8>> {
    split_segments(
        if is_rooted(name) {
            name.drop_first()
        } else {
            name
        },
        Seq::empty(),
    )
}

/// The name segments of `segs`, one after another.
pub open spec fn segs_bytes(segs: Seq<Seq<u8>>) -> Seq<u8>
    decreases segs.len(),
{
    if segs.len() == 0 {
        Seq::empty()
    } else {
        segs_bytes(segs.drop_last()) + name_seg_bytes(segs.last())
    }
}

/// The AML name string of a dotted name: an optional root prefix, then a
/// single segment, a dual-name prefix with two segments, or a multi-name
/// prefix with a count and the segments.
pub open spec fn name_string(name: Seq<u8>) -> Seq<u8> {
    let segs = name_segments(name);
    (if is_rooted(name) {
        seq![0x5cu8]
    } else {
        Seq::empty()
    }) + (if segs.len() == 0 {
        Seq::empty()
    } else if segs.len() == 1 {
        name_seg_bytes(segs[0])
    } else if segs.len() == 2 {
        seq![0x2eu8] + name_seg_bytes(segs[0]) + name_seg_bytes(segs[1])
    } else {
        seq![0x2fu8, segs.len() as u8] + segs_bytes(segs)
    })
}

/// The name string of a name given as text.
pub open spec fn name_of(name: &str) -> Seq<u8> {
    name_string(name.spec_bytes())
}

/// The four-byte name segment of `segment`.
fn name_seg(segment: &[u8]) -> (out: [u8; 4])
    ensures
        out@ == name_seg_bytes(segment@),
{
    let mut out = [0x5fu8; 4];
    let mut index: usize = 0;
    while index < 4 && index < segment.len()
        invariant
            index <= 4,
            index <= segment@.len(),
            forall|i: int|
                0 <= i < 4 ==> out@[i] == (if i < index {
                    segment@[i]
                } else {
                    0x5fu8
                }),
        decreases 4 - index,
    {
        out[index] = segment[index];
        index += 1;
    }
    assert(out@ =~= name_seg_bytes(segment@));
    out
}

proof fn lemma_split_step(s: Seq<u8>, i: int, cur: Seq<u8>)
    requires
        0 <= i < s.len(),
    ensures
        split_segments(s.skip(i), cur) == if s[i] == 0x2e {
            (if cur.len() > 0 {
                seq![cur]
            } else {
                Seq::<Seq<u8>>::empty()
            }) + split_segments(s.skip(i + 1), Seq::empty())
        } else {
            split_segments(s.skip(i + 1), cur.push(s[i]))
        },
{
    assert(s.skip(i).drop_first() =~= s.skip(i + 1));
}

/// Splits `path` at the dots into its non-empty segments.
fn split_path(path: &[u8]) -> (segments: Vec<Vec<u8>>)
    ensures
        segments.deep_view() == split_segments(path@, Seq::empty()),
{
    let mut segments: Vec<Vec<u8>> = Vec::new();
    let mut cur: Vec<u8> = Vec::new();
    let mut i: usize = 0;
    assert(path@.skip(0) =~= path@);
    while i < path.len()
        invariant
            i <= path@.len(),
            segments.deep_view() + split_segments(path@.skip(i as int), cur@) == split_segments(
                path@,
                Seq::empty(),
            ),
        decreases path@.len() - i,
    {
        proof {
            lemma_split_step(path@, i as int, cur@);
        }
        if path[i] == 0x2e {
            if cur.len() > 0 {
                let ghost old_segments = segments.deep_view();
                assert(cur.deep_view() =~= cur@);
                segments.push(cur);
                assert(segments.deep_view() =~= old_segments + seq![cur@]);
            }
            cur = Vec::new();
            assert(cur@ =~= Seq::<u8>::empty());
        } else {
            cur.push(path[i]);
        }
        i += 1;
    }
    assert(path@.skip(i as int) =~= Seq::<u8>::empty());
    if cur.len() > 0 {
        let ghost old_segments = segments.deep_view();
        assert(cur.deep_view() =~= cur@);
        segments.push(cur);
        assert(segments.deep_view() =~= old_segments + seq![cur@]);
    }
    assert(segments.deep_view() =~= split_segments(path@, Seq::empty()));
    segments
}

/// Appends the name string of `name` (see `name_string`).
pub fn encode_name_string(name: &str, out: &mut Vec<u8>)
    ensures
        final(out)@ == old(out)@ + name_of(name),
{
    encode_name_bytes(name.as_bytes(), out);
}

/// Appends the name string of the name whose UTF-8 bytes are `bytes`.
pub fn encode_name_bytes(bytes: &[u8], out: &mut Vec<u8>)
    ensures
        final(out)@ == old(out)@ + name_string(bytes@),
{
    let ghost b = bytes@;
    let rooted = bytes.len() > 0 && bytes[0] == 0x5c;
    let segments = if rooted {
        out.push(0x5c);
        let rest = slice_skip_first(bytes);
        split_path(rest)
    } else {
        split_path(bytes)
    };
    let ghost mid = out@;
    let ghost segs = segments.deep_view();
    assert(segs == name_segments(b));
    let count = segments.len();
    if count == 0 {
    } else if count == 1 {
        let s0 = name_seg(segments[0].as_slice());
        push_bytes(out, &s0);
    } else if count == 2 {
        out.push(0x2e);
        let s0 = name_seg(segments[0].as_slice());
        push_bytes(out, &s0);
        let s1 = name_seg(segments[1].as_slice());
        push_bytes(out, &s1);
    } else {
        out.push(0x2f);
        out.push(count as u8);
        let ghost start = out@;
        let mut k: usize = 0;
        while k < count
            invariant
                k <= count,
                count == segs.len(),
                segs == segments.deep_view(),
                out@ == start + segs_bytes(segs.take(k as int)),
            decreases count - k,
        {
            let sk = name_seg(segments[k].as_slice());
            push_bytes(out, &sk);
            k += 1;
            assert(segs.take(k as int).drop_last() =~= segs.take(k - 1));
        }
        assert(segs.take(k as int) =~= segs);
    }
    assert(final(out)@ =~= old(out)@ + name_string(b));
}

/// All bytes of a non-empty slice but the first.
fn slice_skip_first(bytes: &[u8]) -> (rest: &[u8])
    requires
        bytes@.len() > 0,
    ensures
        rest@ == bytes@.drop_first(),
{
    let n = bytes.len();
    let rest = vstd::slice::slice_subrange(bytes, 1, n);
    assert(rest@ =~= bytes@.drop_first());
    rest
}

// ---------------------------------------------------------------------
// EISA IDs.
// ---------------------------------------------------------------------

/// Whether `b` is an ASCII hexadecimal digit.
pub open spec fn is_hex_digit(b: u8) -> bool {
    (0x30 <= b <= 0x39) || (0x61 <= b <= 0x66) || (0x41 <= b <= 0x46)
}

/// The value of a hexadecimal digit.
pub open spec fn hex_digit_value(b: u8) -> nat {
    if 0x30 <= b <= 0x39 {
        (b - 0x30) as nat
    } else if 0x61 <= b <= 0x66 {
        (b - 0x57) as nat
    } else {
        (b - 0x37) as nat
    }
}

/// Whether every byte of `s` is a hexadecimal digit.
pub open spec fn all_hex_digits(s: Seq<u8>) -> bool {
    forall|i: int| 0 <= i < s.len() ==> is_hex_digit(#[trigger] s[i])
}

/// The value of a string of hexadecimal digits.
pub open spec fn hex_value(s: Seq<u8>) -> nat
    decreases s.len(),
{
    if s.len() == 0 {
        0
    } else {
        16 * hex_value(s.drop_last()) + hex_digit_value(s.last())
    }
}

/// The product number of an EISA ID, as a hexadecimal string of four
/// bytes parses: an optional plus sign, then only hexadecimal digits.
pub open spec fn eisa_product(s: Seq<u8>) -> Option<u16> {
    if s.len() == 4 && s[0] == 0x2b && all_hex_digits(s.drop_first()) {
        Some(hex_value(s.drop_first()) as u16)
    } else if s.len() == 4 && all_hex_digits(s) {
        Some(hex_value(s) as u16)
    } else {
        None
    }
}

/// An EISA ID is seven bytes: three manufacturer letters (at or above
/// '@') and a four-digit hexadecimal product number.
pub open spec fn valid_eisa_id(b: Seq<u8>) -> bool {
    &&& b.len() == 7
    &&& b[0] >= 0x40
    &&& b[1] >= 0x40
    &&& b[2] >= 0x40
    &&& eisa_product(b.subrange(3, 7)) is Some
}

/// The two bytes of a 16-bit value, swapped.
pub open spec fn swap16(p: u16) -> u16 {
    ((p % 256) * 256 + p / 256) as u16
}

/// The compressed 32-bit EISA ID: the manufacturer letters in five bits
/// each from bit 26 down, and the product number with its bytes swapped.
pub open spec fn eisa_id_value(b: Seq<u8>) -> u32 {
    ((((b[0] - 0x40) as u32) << 26u32) | (((b[1] - 0x40) as u32) << 21u32) | (((b[2]
        - 0x40) as u32) << 16u32)) | (swap16(eisa_product(b.subrange(3, 7))->0) as u32)
}

proof fn lemma_eisa_bits(x0: u32, x1: u32, x2: u32, q: u32)
    by (bit_vector)
    requires
        x0 < 32,
        x1 < 32,
        x2 < 32,
        q < 0x1_0000,
    ensures
        ((((x0 << 26u32) | (x1 << 21u32) | (x2 << 16u32)) | q) >> 26u32) & 31u32 == x0,
        ((((x0 << 26u32) | (x1 << 21u32) | (x2 << 16u32)) | q) >> 21u32) & 31u32 == x1,
        ((((x0 << 26u32) | (x1 << 21u32) | (x2 << 16u32)) | q) >> 16u32) & 31u32 == x2,
        (((x0 << 26u32) | (x1 << 21u32) | (x2 << 16u32)) | q) & 0xffu32 == q % 256,
        ((((x0 << 26u32) | (x1 << 21u32) | (x2 << 16u32)) | q) >> 8u32) & 0xffu32 == q / 256,
{
}

/// A compressed EISA ID decodes back to the ID: with upper-case
/// manufacturer letters, bits 26, 21 and 16 up (five bits each) hold the
/// three letters less '@', and the low 16 bits hold the product number
/// with its bytes swapped: the high byte of the product in the low byte.
pub proof fn lemma_eisa_id_decode(b: Seq<u8>)
    requires
        valid_eisa_id(b),
        b[0] < 0x60,
        b[1] < 0x60,
        b[2] < 0x60,
    ensures
        (eisa_id_value(b) >> 26u32) & 31u32 == b[0] - 0x40,
        (eisa_id_value(b) >> 21u32) & 31u32 == b[1] - 0x40,
        (eisa_id_value(b) >> 16u32) & 31u32 == b[2] - 0x40,
        eisa_id_value(b) & 0xffu32 == eisa_product(b.subrange(3, 7))->0 / 256,
        (eisa_id_value(b) >> 8u32) & 0xffu32 == eisa_product(b.subrange(3, 7))->0 % 256,
{
    let p = eisa_product(b.subrange(3, 7))->0;
    let q = swap16(p) as u32;
    lemma_eisa_bits((b[0] - 0x40) as u32, (b[1] - 0x40) as u32, (b[2] - 0x40) as u32, q);
    assert(q % 256 == p / 256);
    assert(q / 256 == p % 256);
}

proof fn lemma_hex_value_bound(s: Seq<u8>)
    requires
        all_hex_digits(s),
    ensures
        hex_value(s) < pow16(s.len()),
    decreases s.len(),
{
    if s.len() > 0 {
        lemma_hex_value_bound(s.drop_last());
        assert(is_hex_digit(s[s.len() - 1]));
    }
}

/// 16 to the power `n`.
pub open spec fn pow16(n: nat) -> nat
    decreases n,
{
    if n == 0 {
        1
    } else {
        16 * pow16((n - 1) as nat)
    }
}

/// Parses the value of the hexadecimal digits `s`.
fn parse_hex_digits(s: &[u8]) -> (v: u32)
    requires
        all_hex_digits(s@),
        s@.len() <= 4,
    ensures
        v == hex_value(s@),
{
    proof {
        lemma_hex_value_bound(s@);
    }
    let mut v: u32 = 0;
    let mut i: usize = 0;
    while i < s.len()
        invariant
            i <= s@.len(),
            s@.len() <= 4,
            all_hex_digits(s@),
            v == hex_value(s@.take(i as int)),
        decreases s@.len() - i,
    {
        assert(s@.take(i + 1).drop_last() =~= s@.take(i as int));
        proof {
            lemma_hex_value_bound(s@.take(i as int));
            assert(is_hex_digit(s@[i as int]));
            reveal_with_fuel(pow16, 4);
            assert(pow16(i as nat) <= 4096);
        }
        let b = s[i];
        let d: u32 = if 0x30 <= b && b <= 0x39 {
            (b - 0x30) as u32
        } else if 0x61 <= b && b <= 0x66 {
            (b - 0x57) as u32
        } else {
            (b - 0x37) as u32
        };
        v = 16 * v + d;
        i += 1;
    }
    assert(s@.take(i as int) =~= s@);
    v
}

/// Whether every byte of `s` is a hexadecimal digit.
fn check_hex_digits(s: &[u8]) -> (r: bool)
    ensures
        r == all_hex_digits(s@),
{
    let mut i: usize = 0;
    while i < s.len()
        invariant
            i <= s@.len(),
            forall|k: int| 0 <= k < i ==> is_hex_digit(#[trigger] s@[k]),
        decreases s@.len() - i,
    {
        let b = s[i];
        if !((0x30 <= b && b <= 0x39) || (0x61 <= b && b <= 0x66) || (0x41 <= b && b <= 0x46)) {
            return false;
        }
        i += 1;
    }
    true
}

/// The product number of an EISA ID (see `eisa_product`).
fn parse_eisa_product(s: &[u8]) -> (p: Option<u16>)
    requires
        s@.len() == 4,
    ensures
        p == eisa_product(s@),
{
    if s[0] == 0x2b {
        let digits = slice_skip_first(s);
        if check_hex_digits(digits) {
            proof {
                lemma_hex_value_bound(digits@);
            }
            return Some(parse_hex_digits(digits) as u16);
        }
    }
    if check_hex_digits(s) {
        proof {
            lemma_hex_value_bound(s@);
        }
        Some(parse_hex_digits(s) as u16)
    } else {
        None
    }
}

/// Compresses a seven-character EISA ID such as "PNP0A03" into its 32-bit
/// form.
pub fn encode_eisa_id(id: &str) -> (v: u32)
    requires
        valid_eisa_id(id.spec_bytes()),
    ensures
        v == eisa_id_value(id.spec_bytes()),
{
    let bytes = id.as_bytes();
    let manufacturer = (((bytes[0] - 0x40) as u32) << 26u32) | (((bytes[1] - 0x40) as u32) << 21u32)
        | (((bytes[2] - 0x40) as u32) << 16u32);
    let tail = vstd::slice::slice_subrange(bytes, 3, 7);
    assert(tail@ =~= bytes@.subrange(3, 7));
    let product = match parse_eisa_product(tail) {
        Some(p) => p,
        None => 0,
    };
    let swapped: u16 = ((product % 256) * 256 + product / 256) as u16;
    manufacturer | (swapped as u32)
}

// ---------------------------------------------------------------------
// Terms.
// ---------------------------------------------------------------------

/// `Name(name, value)`.
pub open spec fn name_term(name: Seq<u8>, value: Seq<u8>) -> Seq<u8> {
    seq![0x08u8] + name_string(name) + value
}

/// `Scope(name) { body }`.
pub open spec fn scope_term(name: Seq<u8>, body: Seq<u8>) -> Seq<u8> {
    seq![0x10u8] + pkg(name_string(name) + body)
}

/// `Device(name) { body }`.
pub open spec fn device_term(name: Seq<u8>, body: Seq<u8>) -> Seq<u8> {
    seq![0x5bu8, 0x82] + pkg(name_string(name) + body)
}

/// The flags byte of a method: the argument count, and bit 3 when the
/// method is serialized.
pub open spec fn method_flags(args: u8, serialized: bool) -> u8 {
    args | (if serialized {
        0x08u8
    } else {
        0u8
    })
}

/// `Method(name, flags) { body }`.
pub open spec fn method_term(name: Seq<u8>, flags: u8, body: Seq<u8>) -> Seq<u8> {
    seq![0x14u8] + pkg(name_string(name) + seq![flags] + body)
}

/// `Return(value)`.
pub open spec fn return_term(value: Seq<u8>) -> Seq<u8> {
    seq![0xa4u8] + value
}

/// A string constant: the bytes and a terminating zero.
pub open spec fn string_term(text: Seq<u8>) -> Seq<u8> {
    seq![0x0du8] + text + seq![0u8]
}

/// `EISAID(id)`: the compressed ID as a dword constant.
pub open spec fn eisa_term(id: Seq<u8>) -> Seq<u8> {
    seq![0x0cu8] + le32(eisa_id_value(id))
}

/// `Buffer() { bytes }`: the size as an integer, then the bytes.
pub open spec fn buffer_term(bytes: Seq<u8>) -> Seq<u8> {
    seq![0x11u8] + pkg(int_bytes(bytes.len() as u64) + bytes)
}

/// `Package(count) { elements }`.
pub open spec fn package_term(count: u8, elements: Seq<u8>) -> Seq<u8> {
    seq![0x12u8] + pkg(seq![count] + elements)
}

/// `ArgN`.
pub open spec fn arg_term(index: u8) -> Seq<u8> {
    seq![(0x68 + index) as u8]
}

/// `Store(source, target)`.
pub open spec fn store_term(source: Seq<u8>, target: Seq<u8>) -> Seq<u8> {
    seq![0x70u8] + source + target
}

/// `LEqual(a, b)`.
pub open spec fn lequal_term(a: Seq<u8>, b: Seq<u8>) -> Seq<u8> {
    seq![0x93u8] + a + b
}

/// `If (predicate) { body }`.
pub open spec fn if_term(predicate: Seq<u8>, body: Seq<u8>) -> Seq<u8> {
    seq![0xa0u8] + pkg(predicate + body)
}

/// `Else { body }`.
pub open spec fn else_term(body: Seq<u8>) -> Seq<u8> {
    seq![0xa1u8] + pkg(body)
}

/// An integer constant.
pub fn aml_int(value: u64) -> (out: Vec<u8>)
    ensures
        out@ == int_bytes(value),
{
    let mut out: Vec<u8> = Vec::new();
    encode_integer(value, &mut out);
    assert(out@ =~= int_bytes(value));
    out
}

/// A name string used as a reference.
pub fn aml_path(name: &[u8]) -> (out: Vec<u8>)
    ensures
        out@ == name_string(name@),
{
    let mut out: Vec<u8> = Vec::new();
    encode_name_bytes(name, &mut out);
    assert(out@ =~= name_string(name@));
    out
}

/// `Name(name, value)` where `value` is already encoded.
pub fn aml_name(name: &[u8], value: &[u8]) -> (out: Vec<u8>)
    ensures
        out@ == name_term(name@, value@),
{
    let mut out: Vec<u8> = Vec::new();
    out.push(0x08);
    encode_name_bytes(name, &mut out);
    push_bytes(&mut out, value);
    assert(out@ =~= name_term(name@, value@));
    out
}

/// `Scope(name) { body }` where `body` is already encoded.
pub fn aml_scope(name: &[u8], body: &[u8]) -> (out: Vec<u8>)
    ensures
        out@ == scope_term(name@, body@),
{
    let mut inner: Vec<u8> = Vec::new();
    encode_name_bytes(name, &mut inner);
    push_bytes(&mut inner, body);
    let mut out: Vec<u8> = Vec::new();
    out.push(0x10);
    encode_pkg(&mut out, inner.as_slice());
    assert(out@ =~= scope_term(name@, body@));
    out
}

/// `Device(name) { body }` where `body` is already encoded.
pub fn aml_device(name: &[u8], body: &[u8]) -> (out: Vec<u8>)
    ensures
        out@ == device_term(name@, body@),
{
    let mut inner: Vec<u8> = Vec::new();
    encode_name_bytes(name, &mut inner);
    push_bytes(&mut inner, body);
    let mut out: Vec<u8> = Vec::new();
    out.push(0x5b);
    out.push(0x82);
    encode_pkg(&mut out, inner.as_slice());
    assert(out@ =~= device_term(name@, body@));
    out
}

/// `Method(name, args, serialized) { body }` where `body` is already
/// encoded.
pub fn aml_method(name: &[u8], args: u8, serialized: bool, body: &[u8]) -> (out: Vec<u8>)
    ensures
        out@ == method_term(name@, method_flags(args, serialized), body@),
{
    let mut inner: Vec<u8> = Vec::new();
    encode_name_bytes(name, &mut inner);
    let flags: u8 = args | if serialized {
        0x08u8
    } else {
        0u8
    };
    inner.push(flags);
    push_bytes(&mut inner, body);
    let mut out: Vec<u8> = Vec::new();
    out.push(0x14);
    encode_pkg(&mut out, inner.as_slice());
    assert(out@ =~= method_term(name@, method_flags(args, serialized), body@));
    out
}

/// `Return(value)` where `value` is already encoded.
pub fn aml_return(value: &[u8]) -> (out: Vec<u8>)
    ensures
        out@ == return_term(value@),
{
    let mut out: Vec<u8> = Vec::new();
    out.push(0xa4);
    push_bytes(&mut out, value);
    assert(out@ =~= return_term(value@));
    out
}

/// A string constant.
pub fn aml_string(text: &str) -> (out: Vec<u8>)
    ensures
        out@ == string_term(utf8(text@)),
{
    let mut out: Vec<u8> = Vec::new();
    out.push(0x0d);
    push_bytes(&mut out, text.as_bytes());
    out.push(0);
    assert(out@ =~= string_term(utf8(text@)));
    out
}

/// `EISAID(id)`.
pub fn aml_eisa_id(id: &str) -> (out: Vec<u8>)
    requires
        valid_eisa_id(id.spec_bytes()),
    ensures
        out@ == eisa_term(id.spec_bytes()),
{
    let mut out: Vec<u8> = Vec::new();
    out.push(0x0c);
    push_u32(&mut out, encode_eisa_id(id));
    assert(out@ =~= eisa_term(id.spec_bytes()));
    out
}

/// `Buffer() { bytes }`.
pub fn aml_buffer(bytes: &[u8]) -> (out: Vec<u8>)
    ensures
        out@ == buffer_term(bytes@),
{
    let mut inner: Vec<u8> = Vec::new();
    encode_integer(byte_len(bytes) as u64, &mut inner);
    push_bytes(&mut inner, bytes);
    let mut out: Vec<u8> = Vec::new();
    out.push(0x11);
    encode_pkg(&mut out, inner.as_slice());
    assert(out@ =~= buffer_term(bytes@));
    out
}

/// `Package(count) { elements }` where the elements are already encoded.
pub fn aml_package(count: u8, elements: &[u8]) -> (out: Vec<u8>)
    ensures
        out@ == package_term(count, elements@),
{
    let mut inner: Vec<u8> = Vec::new();
    inner.push(count);
    push_bytes(&mut inner, elements);
    let mut out: Vec<u8> = Vec::new();
    out.push(0x12);
    encode_pkg(&mut out, inner.as_slice());
    assert(out@ =~= package_term(count, elements@));
    out
}

/// `Store(source, target)`.
pub fn aml_store(source: &[u8], target: &[u8]) -> (out: Vec<u8>)
    ensures
        out@ == store_term(source@, target@),
{
    let mut out: Vec<u8> = Vec::new();
    out.push(0x70);
    push_bytes(&mut out, source);
    push_bytes(&mut out, target);
    assert(out@ =~= store_term(source@, target@));
    out
}

/// `LEqual(a, b)`.
pub fn aml_lequal(a: &[u8], b: &[u8]) -> (out: Vec<u8>)
    ensures
        out@ == lequal_term(a@, b@),
{
    let mut out: Vec<u8> = Vec::new();
    out.push(0x93);
    push_bytes(&mut out, a);
    push_bytes(&mut out, b);
    assert(out@ =~= lequal_term(a@, b@));
    out
}

/// `If (predicate) { body }`.
pub fn aml_if(predicate: &[u8], body: &[u8]) -> (out: Vec<u8>)
    ensures
        out@ == if_term(predicate@, body@),
{
    let mut inner: Vec<u8> = Vec::new();
    push_bytes(&mut inner, predicate);
    push_bytes(&mut inner, body);
    let mut out: Vec<u8> = Vec::new();
    out.push(0xa0);
    encode_pkg(&mut out, inner.as_slice());
    assert(out@ =~= if_term(predicate@, body@));
    out
}

/// `Else { body }`.
pub fn aml_else(body: &[u8]) -> (out: Vec<u8>)
    ensures
        out@ == else_term(body@),
{
    let mut out: Vec<u8> = Vec::new();
    out.push(0xa1);
    encode_pkg(&mut out, body);
    assert(out@ =~= else_term(body@));
    out
}

// ---------------------------------------------------------------------
// A tree of AML objects.
// ---------------------------------------------------------------------

/// A named object or statement of an AML tree.
#[derive(Debug)]
pub enum AmlNode {
    Scope { name: String, children: Vec<AmlNode> },
    Device { name: String, children: Vec<AmlNode> },
    Name { name: String, value: AmlValue },
    Method { name: String, args: u8, serialized: bool, body: Vec<AmlNode> },
    Return(AmlValue),
}

/// A data object of an AML tree.
#[derive(Debug)]
pub enum AmlValue {
    Integer(u64),
    String(String),
    EisaId(&'static str),
    Buffer(Vec<u8>),
    Package(Vec<AmlValue>),
    Arg(u8),
}

/// The encoding of a value.
pub open spec fn value_bytes(v: AmlValue) -> Seq<u8>
    decreases v,
{
    match v {
        AmlValue::Integer(x) => int_bytes(x),
        AmlValue::String(text) => string_term(utf8(text@)),
        AmlValue::EisaId(id) => eisa_term(id.spec_bytes()),
        AmlValue::Buffer(bytes) => buffer_term(bytes@),
        AmlValue::Package(values) => package_term(
            values@.len() as u8,
            values_bytes(values@),
        ),
        AmlValue::Arg(index) => arg_term(index),
    }
}

/// The encodings of `values`, one after another.
pub open spec fn values_bytes(values: Seq<AmlValue>) -> Seq<u8>
    decreases values,
{
    if values.len() == 0 {
        Seq::empty()
    } else {
        values_bytes(values.subrange(0, values.len() - 1)) + value_bytes(values[values.len() - 1])
    }
}

/// A value can be encoded: its EISA IDs are well formed and its argument
/// references name Arg0 to Arg6 or beyond without leaving the byte range.
pub open spec fn value_wf(v: AmlValue) -> bool
    decreases v,
{
    match v {
        AmlValue::EisaId(id) => valid_eisa_id(id.spec_bytes()),
        AmlValue::Package(values) => values_wf(values@),
        AmlValue::Arg(index) => index <= 0x97,
        _ => true,
    }
}

/// Every value of `values` can be encoded.
pub open spec fn values_wf(values: Seq<AmlValue>) -> bool
    decreases values,
{
    if values.len() == 0 {
        true
    } else {
        values_wf(values.subrange(0, values.len() - 1)) && value_wf(values[values.len() - 1])
    }
}

/// The encoding of a node.
pub open spec fn node_bytes(n: AmlNode) -> Seq<u8>
    decreases n,
{
    match n {
        AmlNode::Scope { name, children } => scope_term(utf8(name@), nodes_bytes(children@)),
        AmlNode::Device { name, children } => device_term(utf8(name@), nodes_bytes(children@)),
        AmlNode::Name { name, value } => name_term(utf8(name@), value_bytes(value)),
        AmlNode::Method { name, args, serialized, body } => method_term(
            utf8(name@),
            method_flags(args, serialized),
            nodes_bytes(body@),
        ),
        AmlNode::Return(value) => return_term(value_bytes(value)),
    }
}

/// The encodings of `nodes`, one after another.
pub open spec fn nodes_bytes(nodes: Seq<AmlNode>) -> Seq<u8>
    decreases nodes,
{
    if nodes.len() == 0 {
        Seq::empty()
    } else {
        nodes_bytes(nodes.subrange(0, nodes.len() - 1)) + node_bytes(nodes[nodes.len() - 1])
    }
}

/// Every value in a node can be encoded.
pub open spec fn node_wf(n: AmlNode) -> bool
    decreases n,
{
    match n {
        AmlNode::Scope { children, .. } => nodes_wf(children@),
        AmlNode::Device { children, .. } => nodes_wf(children@),
        AmlNode::Name { value, .. } => value_wf(value),
        AmlNode::Method { body, .. } => nodes_wf(body@),
        AmlNode::Return(value) => value_wf(value),
    }
}

/// Every node of `nodes` can be encoded.
pub open spec fn nodes_wf(nodes: Seq<AmlNode>) -> bool
    decreases nodes,
{
    if nodes.len() == 0 {
        true
    } else {
        nodes_wf(nodes.subrange(0, nodes.len() - 1)) && node_wf(nodes[nodes.len() - 1])
    }
}

/// Appends the encoding of each node of `nodes`.
fn encode_nodes(nodes: &[AmlNode], out: &mut Vec<u8>)
    requires
        nodes_wf(nodes@),
    ensures
        final(out)@ == old(out)@ + nodes_bytes(nodes@),
    decreases nodes@,
{
    let mut i: usize = 0;
    while i < nodes.len()
        invariant
            i <= nodes@.len(),
            nodes_wf(nodes@),
            out@ == old(out)@ + nodes_bytes(nodes@.subrange(0, i as int)),
        decreases nodes@.len() - i,
    {
        proof {
            lemma_nodes_wf_elem(nodes@, i as int);
            assert(nodes@.subrange(0, i + 1).subrange(0, i as int) =~= nodes@.subrange(0, i as int));
        }
        nodes[i].encode(out);
        i += 1;
    }
    assert(nodes@.subrange(0, i as int) =~= nodes@);
}

proof fn lemma_nodes_wf_elem(nodes: Seq<AmlNode>, i: int)
    requires
        nodes_wf(nodes),
        0 <= i < nodes.len(),
    ensures
        node_wf(nodes[i]),
    decreases nodes.len(),
{
    if i < nodes.len() - 1 {
        lemma_nodes_wf_elem(nodes.subrange(0, nodes.len() - 1), i);
    }
}

proof fn lemma_values_wf_elem(values: Seq<AmlValue>, i: int)
    requires
        values_wf(values),
        0 <= i < values.len(),
    ensures
        value_wf(values[i]),
    decreases values.len(),
{
    if i < values.len() - 1 {
        lemma_values_wf_elem(values.subrange(0, values.len() - 1), i);
    }
}

/// Appends the encoding of each value of `values`.
fn encode_values(values: &[AmlValue], out: &mut Vec<u8>)
    requires
        values_wf(values@),
    ensures
        final(out)@ == old(out)@ + values_bytes(values@),
    decreases values@,
{
    let mut i: usize = 0;
    while i < values.len()
        invariant
            i <= values@.len(),
            values_wf(values@),
            out@ == old(out)@ + values_bytes(values@.subrange(0, i as int)),
        decreases values@.len() - i,
    {
        proof {
            lemma_values_wf_elem(values@, i as int);
            assert(values@.subrange(0, i + 1).subrange(0, i as int) =~= values@.subrange(0, i as int));
        }
        values[i].encode(out);
        i += 1;
    }
    assert(values@.subrange(0, i as int) =~= values@);
}

impl AmlNode {
    /// Appends the AML encoding of this node.
    pub fn encode(&self, out: &mut Vec<u8>)
        requires
            node_wf(*self),
        ensures
            final(out)@ == old(out)@ + node_bytes(*self),
        decreases *self,
    {
        match self {
            AmlNode::Scope { name, children } => {
                let mut inner: Vec<u8> = Vec::new();
                encode_name_string(name.as_str(), &mut inner);
                encode_nodes(children.as_slice(), &mut inner);
                out.push(0x10);
                encode_pkg(out, inner.as_slice());
            },
            AmlNode::Device { name, children } => {
                let mut inner: Vec<u8> = Vec::new();
                encode_name_string(name.as_str(), &mut inner);
                encode_nodes(children.as_slice(), &mut inner);
                out.push(0x5b);
                out.push(0x82);
                encode_pkg(out, inner.as_slice());
            },
            AmlNode::Name { name, value } => {
                out.push(0x08);
                encode_name_string(name.as_str(), out);
                value.encode(out);
            },
            AmlNode::Method { name, args, serialized, body } => {
                let mut inner: Vec<u8> = Vec::new();
                encode_name_string(name.as_str(), &mut inner);
                inner.push(*args | if *serialized {
                    0x08u8
                } else {
                    0u8
                });
                encode_nodes(body.as_slice(), &mut inner);
                out.push(0x14);
                encode_pkg(out, inner.as_slice());
            },
            AmlNode::Return(value) => {
                out.push(0xa4);
                value.encode(out);
            },
        }
        assert(final(out)@ =~= old(out)@ + node_bytes(*self));
    }
}

impl AmlValue {
    /// Appends the AML encoding of this value.
    pub fn encode(&self, out: &mut Vec<u8>)
        requires
            value_wf(*self),
        ensures
            final(out)@ == old(out)@ + value_bytes(*self),
        decreases *self,
    {
        match self {
            AmlValue::Integer(value) => encode_integer(*value, out),
            AmlValue::String(value) => {
                out.push(0x0d);
                push_bytes(out, value.as_str().as_bytes());
                out.push(0);
            },
            AmlValue::EisaId(value) => {
                out.push(0x0c);
                push_u32(out, encode_eisa_id(value));
            },
            AmlValue::Buffer(bytes) => {
                let mut inner: Vec<u8> = Vec::new();
                encode_integer(byte_len(bytes.as_slice()) as u64, &mut inner);
                push_bytes(&mut inner, bytes.as_slice());
                out.push(0x11);
                encode_pkg(out, inner.as_slice());
            },
            AmlValue::Package(values) => {
                let mut inner: Vec<u8> = Vec::new();
                inner.push(#[verifier::truncate] (values.len() as u8));
                encode_values(values.as_slice(), &mut inner);
                out.push(0x12);
                encode_pkg(out, inner.as_slice());
            },
            AmlValue::Arg(index) => out.push(0x68 + *index),
        }
        assert(final(out)@ =~= old(out)@ + value_bytes(*self));
    }
}

} // verus!
