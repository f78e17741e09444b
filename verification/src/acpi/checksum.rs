//! The ACPI checksum: the byte that makes a table sum to zero modulo 256.
use vstd::prelude::*;

verus! {

/// The sum of all bytes of `s`.
pub open spec fn byte_sum(s: Seq<u8>) -> nat
    decreases s.len(),
{
    if s.len() == 0 {
        0
    } else {
        byte_sum(s.drop_last()) + s.last() as nat
    }
}

/// The byte that, added to the bytes of `s`, gives a sum of zero modulo 256.
pub open spec fn checksum_of(s: Seq<u8>) -> u8 {
    ((256 - byte_sum(s) % 256) % 256) as u8
}

/// The sum of a concatenation is the sum of the parts.
pub proof fn lemma_byte_sum_concat(a: Seq<u8>, b: Seq<u8>)
    ensures
        byte_sum(a + b) == byte_sum(a) + byte_sum(b),
    decreases b.len(),
{
    if b.len() == 0 {
        assert(a + b =~= a);
    } else {
        lemma_byte_sum_concat(a, b.drop_last());
        assert((a + b).drop_last() =~= a + b.drop_last());
    }
}

/// Replacing one byte changes the sum by the difference of the two bytes.
pub proof fn lemma_byte_sum_update(s: Seq<u8>, i: int, v: u8)
    requires
        0 <= i < s.len(),
    ensures
        byte_sum(s.update(i, v)) + s[i] == byte_sum(s) + v,
{
    let a = s.take(i);
    let b = s.skip(i + 1);
    assert(s =~= a + seq![s[i]] + b);
    assert(s.update(i, v) =~= a + seq![v] + b);
    lemma_byte_sum_concat(a + seq![s[i]], b);
    lemma_byte_sum_concat(a, seq![s[i]]);
    lemma_byte_sum_concat(a + seq![v], b);
    lemma_byte_sum_concat(a, seq![v]);
    lemma_byte_sum_single(v);
    lemma_byte_sum_single(s[i]);
}

/// The sum of a single byte is that byte.
pub proof fn lemma_byte_sum_single(v: u8)
    ensures
        byte_sum(seq![v]) == v,
{
    assert(seq![v].drop_last() =~= Seq::<u8>::empty());
    assert(byte_sum(Seq::<u8>::empty()) == 0);
}

/// Writing the checksum of `s` into a byte of `s` that is zero makes the
/// whole sequence sum to zero modulo 256.
pub proof fn lemma_checksum_zeroes_sum(s: Seq<u8>, i: int)
    requires
        0 <= i < s.len(),
        s[i] == 0,
    ensures
        byte_sum(s.update(i, checksum_of(s))) % 256 == 0,
{
    lemma_byte_sum_update(s, i, checksum_of(s));
}

/// Computes the checksum byte of `bytes`: the value that brings the sum of
/// all bytes to zero modulo 256.
pub fn acpi_checksum(bytes: &[u8]) -> (c: u8)
    ensures
        c == checksum_of(bytes@),
        (byte_sum(bytes@) + c) % 256 == 0,
{
    let mut sum: u8 = 0;
    let mut i: usize = 0;
    while i < bytes.len()
        invariant
            i <= bytes@.len(),
            sum == byte_sum(bytes@.take(i as int)) % 256,
        decreases bytes@.len() - i,
    {
        assert(bytes@.take(i + 1).drop_last() =~= bytes@.take(i as int));
        sum = ((sum as u16 + bytes[i] as u16) % 256) as u8;
        i += 1;
    }
    assert(bytes@.take(i as int) =~= bytes@);
    ((256 - sum as u16) % 256) as u8
}

} // verus!
