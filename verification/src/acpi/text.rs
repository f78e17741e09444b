//! Comparisons on strings by their UTF-8 bytes.
use vstd::prelude::*;
use vstd::string::*;
use vstd::utf8::*;

verus! {

/// The UTF-8 bytes of a string.
pub open spec fn utf8(s: Seq<char>) -> Seq<u8> {
    encode_utf8(s)
}

/// Two strings are equal exactly when their UTF-8 encodings are.
pub proof fn lemma_utf8_injective(a: Seq<char>, b: Seq<char>)
    ensures
        (utf8(a) == utf8(b)) == (a == b),
{
    encode_utf8_decode_utf8(a);
    encode_utf8_decode_utf8(b);
}

/// Whether two byte slices hold the same bytes.
pub fn bytes_eq(a: &[u8], b: &[u8]) -> (r: bool)
    ensures
        r == (a@ == b@),
{
    if a.len() != b.len() {
        return false;
    }
    let mut i: usize = 0;
    while i < a.len()
        invariant
            i <= a@.len(),
            a@.len() == b@.len(),
            a@.take(i as int) == b@.take(i as int),
        decreases a@.len() - i,
    {
        if a[i] != b[i] {
            assert(a@[i as int] != b@[i as int]);
            return false;
        }
        i += 1;
        assert(a@.take(i as int) =~= b@.take(i as int)) by {
            assert(a@.take(i - 1) == b@.take(i - 1));
        }
    }
    assert(a@ =~= a@.take(i as int));
    assert(b@ =~= b@.take(i as int));
    true
}

/// Whether two strings are equal.
pub fn str_eq(a: &str, b: &str) -> (r: bool)
    ensures
        r == (a@ == b@),
{
    let r = bytes_eq(a.as_bytes(), b.as_bytes());
    proof {
        lemma_utf8_injective(a@, b@);
    }
    r
}

/// Whether `a` comes strictly before `b` byte by byte: at the first byte
/// where they differ `a` has the smaller one, or `a` is a proper prefix of
/// `b`.
pub open spec fn bytes_less(a: Seq<u8>, b: Seq<u8>) -> bool
    decreases a.len(),
{
    if b.len() == 0 {
        false
    } else if a.len() == 0 {
        true
    } else if a[0] != b[0] {
        a[0] < b[0]
    } else {
        bytes_less(a.drop_first(), b.drop_first())
    }
}

/// Whether string `a` sorts strictly before string `b`, as Rust orders
/// strings: by their UTF-8 bytes.
pub open spec fn text_less(a: Seq<char>, b: Seq<char>) -> bool {
    bytes_less(utf8(a), utf8(b))
}

/// The byte order is transitive.
pub proof fn lemma_bytes_less_transitive(a: Seq<u8>, b: Seq<u8>, c: Seq<u8>)
    requires
        bytes_less(a, b),
        bytes_less(b, c),
    ensures
        bytes_less(a, c),
    decreases a.len(),
{
    if a.len() > 0 && a[0] == b[0] && b[0] == c[0] {
        lemma_bytes_less_transitive(a.drop_first(), b.drop_first(), c.drop_first());
    }
}

/// Whether the bytes of `a` come strictly before those of `b`.
pub fn bytes_lt(a: &[u8], b: &[u8]) -> (r: bool)
    ensures
        r == bytes_less(a@, b@),
{
    let mut i: usize = 0;
    assert(a@.skip(0) =~= a@ && b@.skip(0) =~= b@);
    while i < a.len() && i < b.len()
        invariant
            i <= a@.len(),
            i <= b@.len(),
            bytes_less(a@, b@) == bytes_less(a@.skip(i as int), b@.skip(i as int)),
        decreases a@.len() - i,
    {
        if a[i] != b[i] {
            assert(a@.skip(i as int)[0] == a@[i as int]);
            assert(b@.skip(i as int)[0] == b@[i as int]);
            return a[i] < b[i];
        }
        assert(a@.skip(i as int).drop_first() =~= a@.skip(i + 1));
        assert(b@.skip(i as int).drop_first() =~= b@.skip(i + 1));
        i += 1;
    }
    i < b.len()
}

/// Whether string `a` sorts strictly before string `b`.
pub fn str_lt(a: &str, b: &str) -> (r: bool)
    ensures
        r == text_less(a@, b@),
{
    bytes_lt(a.as_bytes(), b.as_bytes())
}

/// The ASCII decimal digits of `n`, most significant first, without
/// leading zeros.
pub open spec fn decimal(n: nat) -> Seq<u8>
    decreases n,
{
    if n < 10 {
        seq![(0x30 + n) as u8]
    } else {
        decimal(n / 10) + seq![(0x30 + n % 10) as u8]
    }
}

/// The decimal digits of `n`, as ASCII bytes.
pub fn decimal_digits(n: u64) -> (digits: Vec<u8>)
    ensures
        digits@ == decimal(n as nat),
    decreases n,
{
    if n < 10 {
        let mut v: Vec<u8> = Vec::new();
        v.push((0x30 + n) as u8);
        assert(v@ =~= decimal(n as nat));
        v
    } else {
        let mut v = decimal_digits(n / 10);
        v.push((0x30 + n % 10) as u8);
        assert(v@ =~= decimal(n as nat));
        v
    }
}

/// The decimal digits of `n` as characters.
pub open spec fn decimal_chars(n: nat) -> Seq<char>
    decreases n,
{
    if n < 10 {
        seq![(0x30 + n) as char]
    } else {
        decimal_chars(n / 10) + seq![(0x30 + n % 10) as char]
    }
}

/// The decimal text of a signed integer: a minus sign for negative values,
/// then the digits of the magnitude.
pub open spec fn int_chars(v: int) -> Seq<char> {
    if v < 0 {
        seq!['-'] + decimal_chars((-v) as nat)
    } else {
        decimal_chars(v as nat)
    }
}

/// The value of a string of decimal digit characters, most significant
/// first.
pub open spec fn decimal_value(s: Seq<char>) -> int
    decreases s.len(),
{
    if s.len() == 0 {
        0
    } else {
        decimal_value(s.drop_last()) * 10 + (s.last() as int - 0x30)
    }
}

/// The value of a string of decimal digit bytes, most significant first.
pub open spec fn decimal_byte_value(s: Seq<u8>) -> int
    decreases s.len(),
{
    if s.len() == 0 {
        0
    } else {
        decimal_byte_value(s.drop_last()) * 10 + (s.last() - 0x30)
    }
}

/// The decimal text of `n` reads back as `n`: it is made of the digits
/// `0` to `9`, starts with a nonzero digit unless `n` is zero (then it is
/// the single digit `0`), and its value is `n`.
pub proof fn lemma_decimal_chars_value(n: nat)
    ensures
        decimal_chars(n).len() >= 1,
        forall|k: int|
            0 <= k < decimal_chars(n).len() ==> 0x30 <= #[trigger] (decimal_chars(n)[k] as int)
                <= 0x39,
        n == 0 ==> decimal_chars(n) == seq!['0'],
        n > 0 ==> decimal_chars(n)[0] != '0',
        decimal_value(decimal_chars(n)) == n,
    decreases n,
{
    if n >= 10 {
        lemma_decimal_chars_value(n / 10);
        let d = decimal_chars(n);
        let p = decimal_chars(n / 10);
        assert(d.drop_last() =~= p);
        assert forall|k: int| 0 <= k < d.len() implies 0x30 <= #[trigger] (d[k] as int)
            <= 0x39 by {
            if k < p.len() {
                assert(d[k] == p[k]);
            }
        }
        assert(d[0] == p[0]);
        assert(d.last() as int == 0x30 + n % 10);
        assert(decimal_value(d) == decimal_value(p) * 10 + (d.last() as int - 0x30));
        assert((n / 10) * 10 + n % 10 == n);
    } else {
        assert(decimal_chars(n).drop_last() =~= Seq::<char>::empty());
        assert(decimal_chars(n).last() as int == 0x30 + n);
        assert(decimal_value(decimal_chars(n)) == decimal_value(Seq::<char>::empty()) * 10 + (
        decimal_chars(n).last() as int - 0x30));
    }
    assert(decimal_value(decimal_chars(n)) == n);
}

/// The decimal bytes of `n` read back as `n`, in the same way.
pub proof fn lemma_decimal_value(n: nat)
    ensures
        decimal(n).len() >= 1,
        forall|k: int| 0 <= k < decimal(n).len() ==> 0x30 <= #[trigger] decimal(n)[k] <= 0x39,
        n > 0 ==> decimal(n)[0] != 0x30,
        decimal_byte_value(decimal(n)) == n,
    decreases n,
{
    if n >= 10 {
        lemma_decimal_value(n / 10);
        let d = decimal(n);
        let p = decimal(n / 10);
        assert(d.drop_last() =~= p);
        assert forall|k: int| 0 <= k < d.len() implies 0x30 <= #[trigger] d[k] <= 0x39 by {
            if k < p.len() {
                assert(d[k] == p[k]);
            }
        }
        assert(d[0] == p[0]);
        assert(d.last() == 0x30 + n % 10);
        assert(decimal_byte_value(d) == decimal_byte_value(p) * 10 + (d.last() - 0x30));
        assert((n / 10) * 10 + n % 10 == n);
    } else {
        assert(decimal(n).drop_last() =~= Seq::<u8>::empty());
        assert(decimal_byte_value(decimal(n)) == decimal_byte_value(Seq::<u8>::empty()) * 10 + (
        decimal(n).last() - 0x30));
    }
    assert(decimal_byte_value(decimal(n)) == n);
}

/// The text of a signed integer reads back as it: a minus sign exactly
/// for negative values, then digits whose value is the magnitude.
pub proof fn lemma_int_chars_value(v: int)
    ensures
        v < 0 ==> int_chars(v)[0] == '-' && decimal_value(int_chars(v).drop_first()) == -v,
        v >= 0 ==> int_chars(v)[0] != '-' && decimal_value(int_chars(v)) == v,
{
    if v < 0 {
        lemma_decimal_chars_value((-v) as nat);
        assert(int_chars(v).drop_first() =~= decimal_chars((-v) as nat));
    } else {
        lemma_decimal_chars_value(v as nat);
        assert(0x30 <= (int_chars(v)[0] as int));
    }
}

/// Appends one character to a string, by `String::push`. Trusted: the
/// string's characters afterwards are those before, then `c`, as the
/// documentation of `String::push` says.
#[verifier::external_body]
pub(crate) fn push_char(s: &mut String, c: char)
    ensures
        final(s)@ == old(s)@.push(c),
{
    s.push(c);
}

/// Appends the decimal digits of `n`.
pub fn push_decimal(s: &mut String, n: u64)
    ensures
        final(s)@ == old(s)@ + decimal_chars(n as nat),
    decreases n,
{
    if n >= 10 {
        push_decimal(s, n / 10);
    }
    let d = (n % 10) as u8;
    push_char(s, (0x30 + d) as char);
    proof {
        if n < 10 {
            assert(final(s)@ =~= old(s)@ + decimal_chars(n as nat));
        } else {
            assert(final(s)@ =~= old(s)@ + decimal_chars(n as nat));
        }
    }
}

/// The decimal text of `v`.
pub fn int_to_string(v: i64) -> (s: String)
    ensures
        s@ == int_chars(v as int),
{
    let mut s = String::new();
    if v < 0 {
        push_char(&mut s, '-');
        let magnitude: u64 = (0 - (v as i128)) as u64;
        push_decimal(&mut s, magnitude);
    } else {
        push_decimal(&mut s, v as u64);
    }
    assert(s@ =~= int_chars(v as int));
    s
}

/// Whether `needle` occurs in `hay` at `i`.
pub open spec fn occurs_at(hay: Seq<u8>, needle: Seq<u8>, i: int) -> bool {
    0 <= i && i + needle.len() <= hay.len() && hay.subrange(i, i + needle.len()) == needle
}

/// Whether the UTF-8 bytes of `needle` occur in those of `hay`.
pub open spec fn contains_text(hay: Seq<char>, needle: Seq<char>) -> bool {
    exists|i: int| occurs_at(utf8(hay), utf8(needle), i)
}

/// Whether `needle` occurs in `hay`.
pub fn str_contains(hay: &str, needle: &str) -> (r: bool)
    ensures
        r == contains_text(hay@, needle@),
{
    let h = hay.as_bytes();
    let n = needle.as_bytes();
    if n.len() > h.len() {
        proof {
            assert forall|i: int| !occurs_at(h@, n@, i) by {}
        }
        return false;
    }
    let last = h.len() - n.len();
    let mut i: usize = 0;
    loop
        invariant
            i <= last,
            last + n@.len() == h@.len(),
            h@.len() == h.len(),
            n@.len() == n.len(),
            h@ == utf8(hay@),
            n@ == utf8(needle@),
            forall|k: int| 0 <= k < i ==> !occurs_at(h@, n@, k),
        decreases last - i,
    {
        let window = vstd::slice::slice_subrange(h, i, i + n.len());
        if bytes_eq(window, n) {
            assert(occurs_at(h@, n@, i as int));
            return true;
        }
        if i == last {
            proof {
                assert forall|k: int| !occurs_at(h@, n@, k) by {
                    if 0 <= k < i {
                    } else if k == i {
                        assert(window@ =~= h@.subrange(k, k + n@.len()));
                    }
                }
            }
            return false;
        }
        i += 1;
    }
}

/// Whether the UTF-8 bytes of `hay` end with those of `suffix`.
pub open spec fn ends_with_text(hay: Seq<char>, suffix: Seq<char>) -> bool {
    utf8(suffix).len() <= utf8(hay).len() && utf8(hay).subrange(
        utf8(hay).len() - utf8(suffix).len(),
        utf8(hay).len() as int,
    ) == utf8(suffix)
}

/// Whether `hay` ends with `suffix`.
pub fn str_ends_with(hay: &str, suffix: &str) -> (r: bool)
    ensures
        r == ends_with_text(hay@, suffix@),
{
    let h = hay.as_bytes();
    let s = suffix.as_bytes();
    if s.len() > h.len() {
        return false;
    }
    let tail = vstd::slice::slice_subrange(h, h.len() - s.len(), h.len());
    bytes_eq(tail, s)
}

} // verus!
