//! Byte-string helpers shared by the patch parsers and serialisers.
//!
//! Every format handled by this crate is defined on raw 8-bit bytes, so the
//! helpers here work on `&[u8]` and are specified over `Seq<u8>`.
use vstd::prelude::*;
use vstd::slice::slice_subrange;

verus! {

/// Line feed.
pub const LF: u8 = 0x0a;

/// Horizontal tab.
pub const TAB: u8 = 0x09;

/// Space.
pub const SP: u8 = 0x20;

/// `+`
pub const PLUS: u8 = 0x2b;

/// `,`
pub const COMMA: u8 = 0x2c;

/// `-`
pub const MINUS: u8 = 0x2d;

/// `@`
pub const AT: u8 = 0x40;

/// `#`
pub const HASH: u8 = 0x23;

/// `0`
pub const ZERO: u8 = 0x30;

/// Concatenation of a sequence of byte strings, in order.
pub open spec fn concat(parts: Seq<Seq<u8>>) -> Seq<u8>
    decreases parts.len(),
{
    if parts.len() == 0 {
        Seq::empty()
    } else {
        concat(parts.drop_last()) + parts.last()
    }
}

/// The views of a sequence of byte vectors.
pub open spec fn vec_views(lines: Seq<Vec<u8>>) -> Seq<Seq<u8>> {
    lines.map_values(|l: Vec<u8>| l@)
}

/// The views of a sequence of byte slices.
pub open spec fn slice_views(lines: Seq<&[u8]>) -> Seq<Seq<u8>> {
    lines.map_values(|l: &[u8]| l@)
}

/// `s` begins with `prefix`.
pub open spec fn has_prefix(s: Seq<u8>, prefix: Seq<u8>) -> bool {
    prefix.len() <= s.len() && s.subrange(0, prefix.len() as int) == prefix
}

/// `s` ends with `suffix`.
pub open spec fn has_suffix(s: Seq<u8>, suffix: Seq<u8>) -> bool {
    suffix.len() <= s.len() && s.subrange(s.len() - suffix.len(), s.len() as int) == suffix
}

/// Index of the first occurrence of `b` in `s` at or after `from`; `s.len()`
/// when there is none.
pub open spec fn first_index_from(s: Seq<u8>, b: u8, from: int) -> int
    decreases s.len() - from,
{
    if from < 0 || from >= s.len() {
        s.len() as int
    } else if s[from] == b {
        from
    } else {
        first_index_from(s, b, from + 1)
    }
}

/// What `first_index_from` returns: the least index at or after `from` that
/// holds `b`, or the length.
pub proof fn lemma_first_index_from(s: Seq<u8>, b: u8, from: int)
    requires
        0 <= from <= s.len(),
    ensures
        from <= first_index_from(s, b, from) <= s.len(),
        first_index_from(s, b, from) < s.len() ==> s[first_index_from(s, b, from)] == b,
        forall|k: int| from <= k < first_index_from(s, b, from) ==> s[k] != b,
    decreases s.len() - from,
{
    if from < s.len() && s[from] != b {
        lemma_first_index_from(s, b, from + 1);
    }
}

/// An index `at` that holds `b`, with no `b` between `from` and `at`, is the
/// first index from `from`.
pub proof fn lemma_first_index_is(s: Seq<u8>, b: u8, from: int, at: int)
    requires
        0 <= from <= at <= s.len(),
        at < s.len() ==> s[at] == b,
        forall|k: int| from <= k < at ==> s[k] != b,
    ensures
        first_index_from(s, b, from) == at,
    decreases at - from,
{
    if from < at {
        lemma_first_index_is(s, b, from + 1, at);
    }
}

pub proof fn lemma_concat_one(part: Seq<u8>)
    ensures
        concat(seq![part]) == part,
{
    assert(seq![part].drop_last() =~= Seq::<Seq<u8>>::empty());
    assert(concat(seq![part].drop_last()) =~= Seq::<u8>::empty());
    assert(concat(seq![part]) =~= part);
}

pub proof fn lemma_concat_push(parts: Seq<Seq<u8>>, last: Seq<u8>)
    ensures
        concat(parts.push(last)) == concat(parts) + last,
{
    assert(parts.push(last).drop_last() =~= parts);
}

pub proof fn lemma_concat_append(a: Seq<Seq<u8>>, b: Seq<Seq<u8>>)
    ensures
        concat(a + b) == concat(a) + concat(b),
    decreases b.len(),
{
    if b.len() == 0 {
        assert(a + b =~= a);
        assert(concat(a) + concat(b) =~= concat(a));
    } else {
        lemma_concat_append(a, b.drop_last());
        assert((a + b).drop_last() =~= a + b.drop_last());
        assert((a + b).last() == b.last());
        assert(concat(a) + (concat(b.drop_last()) + b.last()) =~= (concat(a) + concat(
            b.drop_last(),
        )) + b.last());
    }
}

/// An owned copy of `s`.
pub fn to_vec(s: &[u8]) -> (r: Vec<u8>)
    ensures
        r@ == s@,
{
    let mut r: Vec<u8> = Vec::new();
    let mut i: usize = 0;
    while i < s.len()
        invariant
            i <= s.len(),
            r@ == s@.subrange(0, i as int),
        decreases s.len() - i,
    {
        r.push(s[i]);
        assert(s@.subrange(0, i + 1) =~= s@.subrange(0, i as int).push(s@[i as int]));
        i += 1;
    }
    assert(s@.subrange(0, s@.len() as int) =~= s@);
    r
}

/// Appends `s` to `out`.
pub fn extend(out: &mut Vec<u8>, s: &[u8])
    ensures
        final(out)@ == old(out)@ + s@,
{
    let mut i: usize = 0;
    while i < s.len()
        invariant
            i <= s.len(),
            out@ == old(out)@ + s@.subrange(0, i as int),
        decreases s.len() - i,
    {
        out.push(s[i]);
        assert(s@.subrange(0, i + 1) =~= s@.subrange(0, i as int).push(s@[i as int]));
        assert(old(out)@ + s@.subrange(0, i + 1) =~= (old(out)@ + s@.subrange(0, i as int)).push(
            s@[i as int],
        ));
        i += 1;
    }
    assert(s@.subrange(0, s@.len() as int) =~= s@);
}

/// Whether two byte strings are equal.
pub fn equal(a: &[u8], b: &[u8]) -> (r: bool)
    ensures
        r == (a@ == b@),
{
    if a.len() != b.len() {
        return false;
    }
    let mut i: usize = 0;
    while i < a.len()
        invariant
            i <= a.len(),
            a.len() == b.len(),
            a@.subrange(0, i as int) == b@.subrange(0, i as int),
        decreases a.len() - i,
    {
        if a[i] != b[i] {
            return false;
        }
        assert(a@.subrange(0, i + 1) =~= a@.subrange(0, i as int).push(a@[i as int]));
        assert(b@.subrange(0, i + 1) =~= b@.subrange(0, i as int).push(b@[i as int]));
        i += 1;
    }
    assert(a@.subrange(0, a@.len() as int) =~= a@);
    assert(b@.subrange(0, b@.len() as int) =~= b@);
    true
}

/// Whether `line` begins with `prefix`.
pub fn starts_with(line: &[u8], prefix: &[u8]) -> (r: bool)
    ensures
        r == has_prefix(line@, prefix@),
{
    if prefix.len() > line.len() {
        return false;
    }
    equal(slice_subrange(line, 0, prefix.len()), prefix)
}

/// Index of the first `b` in `s` at or after `from`, or `s.len()`.
pub fn find_byte(s: &[u8], b: u8, from: usize) -> (r: usize)
    requires
        from <= s@.len(),
    ensures
        r == first_index_from(s@, b, from as int),
        from <= r <= s@.len(),
{
    let mut i: usize = from;
    while i < s.len() && s[i] != b
        invariant
            from <= i <= s.len(),
            first_index_from(s@, b, from as int) == first_index_from(s@, b, i as int),
        decreases s.len() - i,
    {
        i += 1;
    }
    i
}

/// Owned copies of the lines.
pub fn own_lines(lines: &[&[u8]]) -> (r: Vec<Vec<u8>>)
    ensures
        vec_views(r@) == slice_views(lines@),
{
    let mut r: Vec<Vec<u8>> = Vec::new();
    let mut i: usize = 0;
    while i < lines.len()
        invariant
            i <= lines.len(),
            vec_views(r@) == slice_views(lines@).subrange(0, i as int),
        decreases lines.len() - i,
    {
        let ghost before = r@;
        r.push(to_vec(lines[i]));
        assert(vec_views(r@) =~= vec_views(before).push(lines@[i as int]@));
        assert(slice_views(lines@).subrange(0, i + 1) =~= slice_views(lines@).subrange(
            0,
            i as int,
        ).push(lines@[i as int]@));
        i += 1;
    }
    assert(slice_views(lines@).subrange(0, lines@.len() as int) =~= slice_views(lines@));
    r
}

/// The bytes of all `parts`, one after another.
pub fn concat_vecs(parts: &Vec<Vec<u8>>) -> (r: Vec<u8>)
    ensures
        r@ == concat(vec_views(parts@)),
{
    let mut r: Vec<u8> = Vec::new();
    let mut i: usize = 0;
    while i < parts.len()
        invariant
            i <= parts.len(),
            r@ == concat(vec_views(parts@.subrange(0, i as int))),
        decreases parts.len() - i,
    {
        extend(&mut r, parts[i].as_slice());
        proof {
            assert(vec_views(parts@.subrange(0, i + 1)) =~= vec_views(
                parts@.subrange(0, i as int),
            ).push(parts@[i as int]@));
            lemma_concat_push(vec_views(parts@.subrange(0, i as int)), parts@[i as int]@);
        }
        i += 1;
    }
    assert(parts@.subrange(0, parts@.len() as int) =~= parts@);
    r
}

/// `b` is an ASCII decimal digit.
pub open spec fn is_digit(b: u8) -> bool {
    0x30 <= b <= 0x39
}

/// `s` is a non-empty run of ASCII decimal digits.
pub open spec fn is_decimal(s: Seq<u8>) -> bool {
    s.len() > 0 && forall|i: int| 0 <= i < s.len() ==> is_digit(#[trigger] s[i])
}

/// The number that the decimal digits `s` write.
pub open spec fn decimal_value(s: Seq<u8>) -> nat
    decreases s.len(),
{
    if s.len() == 0 {
        0
    } else {
        decimal_value(s.drop_last()) * 10 + (s.last() - 0x30) as nat
    }
}

/// The decimal digits of `n`, without leading zeros.
pub open spec fn decimal_digits(n: nat) -> Seq<u8>
    decreases n,
{
    if n < 10 {
        seq![(0x30 + n) as u8]
    } else {
        decimal_digits(n / 10).push((0x30 + n % 10) as u8)
    }
}

/// Writing a number and reading it back gives the number.
pub proof fn lemma_decimal_roundtrip(n: nat)
    ensures
        is_decimal(decimal_digits(n)),
        decimal_value(decimal_digits(n)) == n,
    decreases n,
{
    if n < 10 {
        let d = decimal_digits(n);
        assert(d.drop_last() =~= Seq::<u8>::empty());
        assert(decimal_value(d.drop_last()) == 0);
    } else {
        lemma_decimal_roundtrip(n / 10);
        let d = decimal_digits(n);
        assert(d.drop_last() =~= decimal_digits(n / 10));
        assert forall|i: int| 0 <= i < d.len() implies is_digit(#[trigger] d[i]) by {
            if i < d.len() - 1 {
                assert(d[i] == decimal_digits(n / 10)[i]);
            }
        }
    }
}

/// Reads a decimal number: `Some` exactly for a non-empty run of digits whose
/// value fits into `usize`.
pub fn parse_decimal(s: &[u8]) -> (r: Option<usize>)
    ensures
        r is Some <==> is_decimal(s@) && decimal_value(s@) <= usize::MAX,
        r is Some ==> r.unwrap() == decimal_value(s@),
{
    if s.len() == 0 {
        return None;
    }
    let mut value: usize = 0;
    let mut i: usize = 0;
    while i < s.len()
        invariant
            i <= s.len(),
            value == decimal_value(s@.subrange(0, i as int)),
            forall|k: int| 0 <= k < i ==> is_digit(#[trigger] s@[k]),
        decreases s.len() - i,
    {
        let b = s[i];
        if b < 0x30 || b > 0x39 {
            return None;
        }
        let digit: usize = (b - 0x30) as usize;
        proof {
            assert(s@.subrange(0, i + 1).drop_last() =~= s@.subrange(0, i as int));
            assert(s@.subrange(0, i + 1).last() == b);
        }
        if value > (usize::MAX - digit) / 10 {
            proof {
                // the prefix already exceeds the limit, and so does the whole
                assert(value * 10 + digit > usize::MAX);
                lemma_decimal_prefix_le(s@, i + 1);
            }
            return None;
        }
        value = value * 10 + digit;
        i += 1;
    }
    assert(s@.subrange(0, s@.len() as int) =~= s@);
    Some(value)
}

/// The value of a prefix never exceeds the value of the whole.
pub proof fn lemma_decimal_prefix_le(s: Seq<u8>, n: int)
    requires
        0 <= n <= s.len(),
    ensures
        decimal_value(s.subrange(0, n)) <= decimal_value(s),
    decreases s.len() - n,
{
    if n == s.len() {
        assert(s.subrange(0, n) =~= s);
    } else {
        lemma_decimal_prefix_le(s, n + 1);
        assert(s.subrange(0, n + 1).drop_last() =~= s.subrange(0, n));
    }
}

/// Writes `n` in decimal.
pub fn format_decimal(n: usize) -> (r: Vec<u8>)
    ensures
        r@ == decimal_digits(n as nat),
{
    let mut digits: Vec<u8> = Vec::new();
    let mut rest: usize = n;
    // digits are produced from the least significant end
    while rest >= 10
        invariant
            decimal_digits(n as nat) == decimal_digits(rest as nat) + digits@.reverse(),
        decreases rest,
    {
        let d: u8 = 0x30 + (rest % 10) as u8;
        proof {
            let low = digits@.reverse();
            assert(digits@.push(d).reverse() =~= seq![d] + low);
            assert(decimal_digits(rest as nat) == decimal_digits((rest / 10) as nat).push(d));
            assert(decimal_digits((rest / 10) as nat).push(d) + low =~= decimal_digits(
                (rest / 10) as nat,
            ) + (seq![d] + low));
        }
        digits.push(d);
        rest = rest / 10;
    }
    let d: u8 = 0x30 + rest as u8;
    let mut r: Vec<u8> = Vec::new();
    r.push(d);
    assert(r@ =~= decimal_digits(rest as nat));
    let mut i: usize = digits.len();
    while i > 0
        invariant
            i <= digits.len(),
            r@ == decimal_digits(rest as nat) + digits@.reverse().subrange(
                0,
                digits.len() - i,
            ),
        decreases i,
    {
        i -= 1;
        r.push(digits[i]);
        proof {
            let rev = digits@.reverse();
            let k = digits.len() - i - 1;
            assert(rev[k] == digits@[i as int]);
            assert(rev.subrange(0, k + 1) =~= rev.subrange(0, k).push(rev[k]));
            assert(decimal_digits(rest as nat) + rev.subrange(0, k + 1) =~= (decimal_digits(
                rest as nat,
            ) + rev.subrange(0, k)).push(rev[k]));
        }
    }
    assert(digits@.reverse().subrange(0, digits.len() as int) =~= digits@.reverse());
    r
}

} // verus!
