//! Character-level helpers shared by the parsers and message builders.
//!
//! Strings are reasoned about through their view, the sequence of their
//! characters. The spec functions here say what the helpers compute in the
//! terms that the standard library documents: Unicode `White_Space` for
//! trimming, `str::split` for splitting on a separator, and the grammar of
//! `u32::from_str` for decimal numbers.

use vstd::prelude::*;
use vstd::string::*;

verus! {

/// Appends one character to a string (`String::push`).
#[verifier::external_body]
pub(crate) fn push_char(s: &mut String, c: char)
    ensures
        final(s)@ == old(s)@.push(c),
{
    s.push(c);
}

/// The characters of a string slice, in order.
pub fn chars_of(s: &str) -> (v: Vec<char>)
    ensures
        v@ == s@,
{
    let n = s.unicode_len();
    let mut v: Vec<char> = Vec::new();
    let mut i: usize = 0;
    while i < n
        invariant
            n == s@.len(),
            i <= n,
            v@ == s@.take(i as int),
        decreases n - i,
    {
        let c = s.get_char(i);
        v.push(c);
        i = i + 1;
        assert(v@ =~= s@.take(i as int));
    }
    assert(v@ =~= s@);
    v
}

/// Whether two string slices hold the same characters.
pub fn str_equal(a: &str, b: &str) -> (r: bool)
    ensures
        r == (a@ == b@),
{
    let va = chars_of(a);
    let vb = chars_of(b);
    if va.len() != vb.len() {
        return false;
    }
    let mut i: usize = 0;
    while i < va.len()
        invariant
            va@ == a@,
            vb@ == b@,
            va.len() == vb.len(),
            i <= va.len(),
            forall|k: int| 0 <= k < i ==> va@[k] == vb@[k],
        decreases va.len() - i,
    {
        if va[i] != vb[i] {
            return false;
        }
        i = i + 1;
    }
    assert(va@ =~= vb@);
    true
}

/// The character of a decimal digit.
pub open spec fn digit_char(d: nat) -> char
    recommends
        d < 10,
{
    (48 + d) as char
}

/// The decimal representation of a natural number, without leading zeros.
pub open spec fn decimal(n: nat) -> Seq<char>
    decreases n,
{
    if n < 10 {
        seq![digit_char(n)]
    } else {
        decimal(n / 10).push(digit_char(n % 10))
    }
}

/// The decimal representation of a number is made of digits, has no
/// leading zero unless it is `0`, and reads back as the number.
pub proof fn lemma_decimal_reads_back(n: nat)
    ensures
        decimal(n).len() > 0,
        forall|i: int| 0 <= i < decimal(n).len() ==> is_digit(#[trigger] decimal(n)[i]),
        n > 0 ==> decimal(n)[0] != '0',
        digits_value(decimal(n)) == n,
    decreases n,
{
    if n < 10 {
        assert(digits_value(decimal(n).drop_last()) == 0) by {
            assert(decimal(n).drop_last() =~= Seq::<char>::empty());
        }
    } else {
        let d = decimal(n / 10);
        lemma_decimal_reads_back(n / 10);
        assert(decimal(n).drop_last() =~= d);
        assert(decimal(n)[0] == d[0]);
        assert forall|i: int| 0 <= i < decimal(n).len() implies is_digit(#[trigger] decimal(n)[i]) by {
            if i < d.len() {
                assert(decimal(n)[i] == d[i]);
            }
        }
        assert((n / 10) * 10 + n % 10 == n) by (nonlinear_arith);
    }
}

/// A text without the separator splits into itself alone.
pub proof fn lemma_split_without_separator(a: Seq<char>, sep: char)
    requires
        forall|i: int| 0 <= i < a.len() ==> a[i] != sep,
    ensures
        split(a, sep) == seq![a],
    decreases a.len(),
{
    if a.len() > 0 {
        lemma_split_without_separator(a.drop_last(), sep);
        assert(a.drop_last().push(a.last()) =~= a);
        assert(split(a, sep) =~= seq![a]);
    } else {
        assert(a =~= Seq::<char>::empty());
    }
}

/// Splitting two texts joined by the separator gives the pieces of the
/// first, then those of the second.
pub proof fn lemma_split_join(s: Seq<char>, t: Seq<char>, sep: char)
    ensures
        split(s + seq![sep] + t, sep) == split(s, sep) + split(t, sep),
    decreases t.len(),
{
    let u = s + seq![sep] + t;
    if t.len() == 0 {
        assert(u.drop_last() =~= s);
        assert(split(u, sep) =~= split(s, sep) + split(t, sep));
    } else {
        lemma_split_join(s, t.drop_last(), sep);
        assert(u.drop_last() =~= s + seq![sep] + t.drop_last());
        lemma_split_nonempty(t.drop_last(), sep);
        lemma_split_nonempty(s, sep);
        let r = split(t.drop_last(), sep);
        let left = split(s, sep);
        if t.last() == sep {
            assert(split(u, sep) =~= left + r.push(Seq::empty()));
        } else {
            assert((left + r).last() == r.last());
            assert(split(u, sep) =~= left + r.update(r.len() - 1, r.last().push(t.last())));
        }
    }
}

fn digit(d: u64) -> (c: char)
    requires
        d < 10,
    ensures
        c == digit_char(d as nat),
{
    let b: u8 = 48u8 + (d as u8);
    b as char
}

/// Appends the decimal representation of `n` to `s`.
pub fn push_decimal(s: &mut String, n: u64)
    ensures
        final(s)@ == old(s)@ + decimal(n as nat),
    decreases n,
{
    if n >= 10 {
        push_decimal(s, n / 10);
    }
    push_char(s, digit(n % 10));
    assert(final(s)@ =~= old(s)@ + decimal(n as nat));
}

/// Whether a character has the Unicode `White_Space` property, which is how
/// `char::is_whitespace` and `str::trim` define whitespace.
pub open spec fn is_white_space(c: char) -> bool {
    let u = c as u32;
    ||| 0x09 <= u <= 0x0d
    ||| u == 0x20
    ||| u == 0x85
    ||| u == 0xa0
    ||| u == 0x1680
    ||| 0x2000 <= u <= 0x200a
    ||| u == 0x2028
    ||| u == 0x2029
    ||| u == 0x202f
    ||| u == 0x205f
    ||| u == 0x3000
}

/// `char::is_whitespace`.
pub fn is_whitespace(c: char) -> (r: bool)
    ensures
        r == is_white_space(c),
{
    let u = c as u32;
    (0x09 <= u && u <= 0x0d) || u == 0x20 || u == 0x85 || u == 0xa0 || u == 0x1680 || (0x2000
        <= u && u <= 0x200a) || u == 0x2028 || u == 0x2029 || u == 0x202f || u == 0x205f || u
        == 0x3000
}

/// The sequence without its leading whitespace.
pub open spec fn trim_start(s: Seq<char>) -> Seq<char>
    decreases s.len(),
{
    if s.len() > 0 && is_white_space(s[0]) {
        trim_start(s.drop_first())
    } else {
        s
    }
}

/// The sequence without its trailing whitespace.
pub open spec fn trim_end(s: Seq<char>) -> Seq<char>
    decreases s.len(),
{
    if s.len() > 0 && is_white_space(s.last()) {
        trim_end(s.drop_last())
    } else {
        s
    }
}

/// `str::trim`: the sequence without leading and trailing whitespace.
pub open spec fn trim(s: Seq<char>) -> Seq<char> {
    trim_end(trim_start(s))
}

/// The bounds `(lo', hi')` of `v[lo..hi]` with whitespace trimmed from both ends.
pub fn trim_bounds(v: &Vec<char>, lo: usize, hi: usize) -> (r: (usize, usize))
    requires
        lo <= hi <= v.len(),
    ensures
        lo <= r.0 <= r.1 <= hi,
        v@.subrange(r.0 as int, r.1 as int) == trim(v@.subrange(lo as int, hi as int)),
{
    let ghost s = v@.subrange(lo as int, hi as int);
    let mut a = lo;
    while a < hi && is_whitespace(v[a])
        invariant
            lo <= a <= hi <= v.len(),
            s == v@.subrange(lo as int, hi as int),
            trim_start(s) == trim_start(v@.subrange(a as int, hi as int)),
        decreases hi - a,
    {
        assert(v@.subrange(a as int, hi as int).drop_first() =~= v@.subrange(a + 1, hi as int));
        a = a + 1;
    }
    assert(trim_start(s) == v@.subrange(a as int, hi as int));
    let mut b = hi;
    while b > a && is_whitespace(v[b - 1])
        invariant
            lo <= a <= b <= hi <= v.len(),
            s == v@.subrange(lo as int, hi as int),
            trim(s) == trim_end(v@.subrange(a as int, b as int)),
        decreases b - a,
    {
        assert(v@.subrange(a as int, b as int).drop_last() =~= v@.subrange(a as int, b - 1));
        b = b - 1;
    }
    (a, b)
}

/// `str::split` on one separator character: the pieces between separators,
/// in order, empty pieces included. An empty sequence has one empty piece.
pub open spec fn split(s: Seq<char>, sep: char) -> Seq<Seq<char>>
    decreases s.len(),
{
    if s.len() == 0 {
        seq![Seq::empty()]
    } else {
        let rest = split(s.drop_last(), sep);
        if s.last() == sep {
            rest.push(Seq::empty())
        } else {
            rest.update(rest.len() - 1, rest.last().push(s.last()))
        }
    }
}

/// `split` never yields an empty list of pieces.
pub proof fn lemma_split_nonempty(s: Seq<char>, sep: char)
    ensures
        split(s, sep).len() >= 1,
    decreases s.len(),
{
    if s.len() > 0 {
        lemma_split_nonempty(s.drop_last(), sep);
    }
}

/// The bounds of the pieces of `v` between the separators `sep`.
pub fn split_bounds(v: &Vec<char>, sep: char) -> (r: Vec<(usize, usize)>)
    ensures
        r.len() == split(v@, sep).len(),
        forall|k: int|
            0 <= k < r.len() ==> r@[k].0 <= r@[k].1 <= v.len() && v@.subrange(
                r@[k].0 as int,
                r@[k].1 as int,
            ) == #[trigger] split(v@, sep)[k],
{
    let mut r: Vec<(usize, usize)> = Vec::new();
    r.push((0, 0));
    let mut i: usize = 0;
    assert(v@.take(0) =~= Seq::<char>::empty());
    assert(split(Seq::<char>::empty(), sep) == seq![Seq::<char>::empty()]);
    assert(v@.subrange(0, 0) =~= Seq::<char>::empty());
    while i < v.len()
        invariant
            i <= v.len(),
            r.len() >= 1,
            r@.last().1 == i,
            r.len() == split(v@.take(i as int), sep).len(),
            forall|k: int|
                #![trigger r@[k]]
                0 <= k < r.len() ==> r@[k].0 <= r@[k].1 <= i && v@.subrange(
                    r@[k].0 as int,
                    r@[k].1 as int,
                ) == split(v@.take(i as int), sep)[k],
        decreases v.len() - i,
    {
        let ghost before = split(v@.take(i as int), sep);
        let ghost r_before = r@;
        assert(v@.take(i + 1).drop_last() =~= v@.take(i as int));
        assert(v@.take(i + 1).last() == v@[i as int]);
        if v[i] == sep {
            r.push((i + 1, i + 1));
            assert(split(v@.take(i + 1), sep) == before.push(Seq::empty()));
            assert forall|k: int| 0 <= k < r.len() implies #[trigger] r@[k].0 <= r@[k].1 <= i + 1
                && v@.subrange(r@[k].0 as int, r@[k].1 as int) == split(
                v@.take(i + 1),
                sep,
            )[k] by {
                if k == r.len() - 1 {
                    assert(v@.subrange(i + 1, i + 1) =~= Seq::<char>::empty());
                } else {
                    assert(r@[k] == r_before[k]);
                    assert(r_before[k].1 <= i);
                }
            }
        } else {
            let last = r.len() - 1;
            let start = r[last].0;
            r.set(last, (start, i + 1));
            assert(split(v@.take(i + 1), sep) == before.update(
                before.len() - 1,
                before.last().push(v@[i as int]),
            ));
            assert forall|k: int| 0 <= k < r.len() implies #[trigger] r@[k].0 <= r@[k].1 <= i + 1
                && v@.subrange(r@[k].0 as int, r@[k].1 as int) == split(
                v@.take(i + 1),
                sep,
            )[k] by {
                assert(r_before[k].1 <= i);
                if k == last {
                    assert(v@.subrange(start as int, i + 1) =~= v@.subrange(
                        start as int,
                        i as int,
                    ).push(v@[i as int]));
                } else {
                    assert(r@[k] == r_before[k]);
                }
            }
        }
        i = i + 1;
    }
    assert(v@.take(v.len() as int) =~= v@);
    assert forall|k: int| 0 <= k < r.len() implies r@[k].0 <= r@[k].1 <= v.len() && v@.subrange(
        r@[k].0 as int,
        r@[k].1 as int,
    ) == #[trigger] split(v@, sep)[k] by {
        assert(r@[k].1 <= i);
    }
    r
}

/// Whether a character is an ASCII decimal digit.
pub open spec fn is_digit(c: char) -> bool {
    48 <= (c as u32) <= 57
}

/// The value of a sequence of decimal digits.
pub open spec fn digits_value(s: Seq<char>) -> nat
    decreases s.len(),
{
    if s.len() == 0 {
        0
    } else {
        digits_value(s.drop_last()) * 10 + ((s.last() as u32) - 48) as nat
    }
}

/// The digits of a number as `u32::from_str` reads them: an optional leading
/// `+` is dropped.
pub open spec fn unsigned_digits(s: Seq<char>) -> Seq<char> {
    if s.len() > 0 && s[0] == '+' {
        s.drop_first()
    } else {
        s
    }
}

/// `u32::from_str`: an optional `+` followed by one or more ASCII digits whose
/// value fits in a `u32`; anything else is refused.
pub open spec fn parse_u32(s: Seq<char>) -> Option<u32> {
    let d = unsigned_digits(s);
    if d.len() > 0 && (forall|i: int| 0 <= i < d.len() ==> is_digit(#[trigger] d[i]))
        && digits_value(d) <= u32::MAX {
        Some(digits_value(d) as u32)
    } else {
        None
    }
}

/// Reads `v[lo..hi]` as `u32::from_str` does.
pub fn parse_u32_range(v: &Vec<char>, lo: usize, hi: usize) -> (r: Option<u32>)
    requires
        lo <= hi <= v.len(),
    ensures
        r == parse_u32(v@.subrange(lo as int, hi as int)),
{
    let ghost s = v@.subrange(lo as int, hi as int);
    let mut start = lo;
    if lo < hi && v[lo] == '+' {
        start = lo + 1;
        assert(s.drop_first() =~= v@.subrange(start as int, hi as int));
    } else {
        assert(s =~= v@.subrange(start as int, hi as int));
    }
    let ghost d = unsigned_digits(s);
    assert(d == v@.subrange(start as int, hi as int));
    if start == hi {
        return None;
    }
    let mut value: u64 = 0;
    let mut overflow = false;
    let mut i = start;
    while i < hi
        invariant
            start <= i <= hi <= v.len(),
            d == v@.subrange(start as int, hi as int),
            d == unsigned_digits(s),
            s == v@.subrange(lo as int, hi as int),
            forall|k: int| 0 <= k < i - start ==> is_digit(#[trigger] d[k]),
            value <= u32::MAX,
            !overflow ==> value == digits_value(d.take(i - start)),
            overflow ==> digits_value(d.take(i - start)) > u32::MAX,
        decreases hi - i,
    {
        let c = v[i];
        assert(d[i - start] == c);
        let cu = c as u32;
        if !(48 <= cu && cu <= 57) {
            assert(!is_digit(d[i - start]));

            return None;
        }
        let ghost prev = d.take(i - start);
        assert(d.take(i - start + 1).drop_last() =~= prev);
        assert(d.take(i - start + 1).last() == c);
        let dv = (c as u32 - 48) as u64;
        if !overflow {
            let next = value * 10 + dv;
            if next > 0xffff_ffff {
                overflow = true;
            } else {
                value = next;
            }
        }
        i = i + 1;
    }
    assert(d.take(hi - start) =~= d);
    if overflow {
        None
    } else {
        Some(value as u32)
    }
}

/// The ASCII lower-case form of a character; other characters are unchanged.
pub open spec fn ascii_lower(c: char) -> char {
    if 65 <= (c as u32) <= 90 {
        ((c as u32) + 32) as char
    } else {
        c
    }
}

/// `str::to_ascii_lowercase` on a sequence of characters.
pub open spec fn to_ascii_lowercase(s: Seq<char>) -> Seq<char> {
    s.map_values(|c: char| ascii_lower(c))
}

/// `str::to_ascii_lowercase`.
pub fn ascii_lowercase(s: &str) -> (r: String)
    ensures
        r@ == to_ascii_lowercase(s@),
{
    let v = chars_of(s);
    let mut out = String::new();
    let mut i: usize = 0;
    while i < v.len()
        invariant
            v@ == s@,
            i <= v.len(),
            out@ == to_ascii_lowercase(v@.take(i as int)),
        decreases v.len() - i,
    {
        let c = v[i];
        let cu = c as u32;
        let l = if 65 <= cu && cu <= 90 {
            ((cu + 32) as u8) as char
        } else {
            c
        };
        push_char(&mut out, l);
        i = i + 1;
        assert(to_ascii_lowercase(v@.take(i as int)) =~= to_ascii_lowercase(
            v@.take(i - 1),
        ).push(l));
    }
    assert(v@.take(v.len() as int) =~= v@);
    out
}

/// What trimming the start leaves does not start with white space.
pub proof fn lemma_trim_start_shape(s: Seq<char>)
    ensures
        trim_start(s).len() == 0 || !is_white_space(trim_start(s)[0]),
        trim_start(trim_start(s)) == trim_start(s),
    decreases s.len(),
{
    if s.len() > 0 && is_white_space(s[0]) {
        lemma_trim_start_shape(s.drop_first());
    }
}

/// What trimming the end leaves begins the text and does not end with white
/// space.
pub proof fn lemma_trim_end_shape(s: Seq<char>)
    ensures
        trim_end(s).len() <= s.len(),
        trim_end(s) == s.take(trim_end(s).len() as int),
        trim_end(s).len() == 0 || !is_white_space(trim_end(s).last()),
        trim_end(trim_end(s)) == trim_end(s),
    decreases s.len(),
{
    if s.len() > 0 && is_white_space(s.last()) {
        lemma_trim_end_shape(s.drop_last());
        let t = trim_end(s.drop_last());
        assert(s.drop_last().take(t.len() as int) =~= s.take(t.len() as int));
    } else {
        assert(s.take(s.len() as int) =~= s);
    }
}

/// Trimming twice trims no more than trimming once.
pub proof fn lemma_trim_idempotent(s: Seq<char>)
    ensures
        trim(trim(s)) == trim(s),
{
    let t = trim_start(s);
    let u = trim_end(t);
    lemma_trim_start_shape(s);
    lemma_trim_end_shape(t);
    if u.len() > 0 {
        assert(u[0] == t[0]);
    }
    assert(trim_start(u) == u);
}

/// Lower-casing changes no white space into something else, nor the other
/// way round.
pub proof fn lemma_ascii_lower_white_space(c: char)
    ensures
        is_white_space(ascii_lower(c)) == is_white_space(c),
        ascii_lower(ascii_lower(c)) == ascii_lower(c),
{
}

/// Trimming and lower-casing can be done in either order.
pub proof fn lemma_trim_lowercase(s: Seq<char>)
    ensures
        trim_start(to_ascii_lowercase(s)) == to_ascii_lowercase(trim_start(s)),
        trim_end(to_ascii_lowercase(s)) == to_ascii_lowercase(trim_end(s)),
        trim(to_ascii_lowercase(s)) == to_ascii_lowercase(trim(s)),
    decreases s.len(),
{
    if s.len() > 0 {
        lemma_ascii_lower_white_space(s[0]);
        lemma_ascii_lower_white_space(s.last());
        assert(to_ascii_lowercase(s).drop_first() =~= to_ascii_lowercase(s.drop_first()));
        assert(to_ascii_lowercase(s).drop_last() =~= to_ascii_lowercase(s.drop_last()));
        lemma_trim_lowercase(s.drop_first());
        lemma_trim_lowercase(s.drop_last());
    } else {
        assert(to_ascii_lowercase(s) =~= s);
    }
    lemma_trim_end_lower(trim_start(s));
}

/// Trimming the end and lower-casing can be done in either order.
pub proof fn lemma_trim_end_lower(s: Seq<char>)
    ensures
        trim_end(to_ascii_lowercase(s)) == to_ascii_lowercase(trim_end(s)),
    decreases s.len(),
{
    if s.len() > 0 {
        lemma_ascii_lower_white_space(s.last());
        assert(to_ascii_lowercase(s).drop_last() =~= to_ascii_lowercase(s.drop_last()));
        lemma_trim_end_lower(s.drop_last());
    } else {
        assert(to_ascii_lowercase(s) =~= s);
    }
}

/// Lower-casing twice is lower-casing once.
pub proof fn lemma_lowercase_idempotent(s: Seq<char>)
    ensures
        to_ascii_lowercase(to_ascii_lowercase(s)) == to_ascii_lowercase(s),
{
    assert forall|i: int| 0 <= i < s.len() implies #[trigger] to_ascii_lowercase(to_ascii_lowercase(s))[i]
        == to_ascii_lowercase(s)[i] by {
        lemma_ascii_lower_white_space(s[i]);
    }
    assert(to_ascii_lowercase(to_ascii_lowercase(s)) =~= to_ascii_lowercase(s));
}

} // verus!
