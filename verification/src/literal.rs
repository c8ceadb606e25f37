use vstd::prelude::*;
use vstd::string::*;

use crate::lexer::is_digit;

verus! {

// ---------------------------------------------------------------------------
// Decimal rendering of line and column numbers
// ---------------------------------------------------------------------------

pub open spec fn digit_char(d: int) -> char {
    if d == 0 {
        '0'
    } else if d == 1 {
        '1'
    } else if d == 2 {
        '2'
    } else if d == 3 {
        '3'
    } else if d == 4 {
        '4'
    } else if d == 5 {
        '5'
    } else if d == 6 {
        '6'
    } else if d == 7 {
        '7'
    } else if d == 8 {
        '8'
    } else {
        '9'
    }
}

/// The decimal digits of `n`, most significant first, without leading zeros.
pub open spec fn decimal(n: nat) -> Seq<char>
    decreases n,
{
    if n < 10 {
        seq![digit_char(n as int)]
    } else {
        decimal(n / 10).push(digit_char((n % 10) as int))
    }
}

fn digit_char_of(d: usize) -> (c: char)
    requires
        d < 10,
    ensures
        c == digit_char(d as int),
{
    if d == 0 {
        '0'
    } else if d == 1 {
        '1'
    } else if d == 2 {
        '2'
    } else if d == 3 {
        '3'
    } else if d == 4 {
        '4'
    } else if d == 5 {
        '5'
    } else if d == 6 {
        '6'
    } else if d == 7 {
        '7'
    } else if d == 8 {
        '8'
    } else {
        '9'
    }
}

/// `String::push`: appends one character.
#[verifier::external_body]
pub(crate) fn push_char(s: &mut String, c: char)
    ensures
        final(s)@ == old(s)@.push(c),
{
    s.push(c)
}

/// Appends the decimal digits of `n` to `s`.
pub fn push_decimal_u64(s: &mut String, n: u64)
    ensures
        final(s)@ == old(s)@ + decimal(n as nat),
    decreases n,
{
    if n < 10 {
        push_char(s, digit_char_of(n as usize));
        assert(final(s)@ =~= old(s)@ + decimal(n as nat));
    } else {
        push_decimal_u64(s, n / 10);
        push_char(s, digit_char_of((n % 10) as usize));
        assert(final(s)@ =~= old(s)@ + decimal(n as nat));
    }
}

/// Appends the decimal digits of `n` to `s`.
pub fn push_decimal(s: &mut String, n: usize)
    ensures
        final(s)@ == old(s)@ + decimal(n as nat),
    decreases n,
{
    if n < 10 {
        push_char(s, digit_char_of(n));
        assert(final(s)@ =~= old(s)@ + decimal(n as nat));
    } else {
        push_decimal(s, n / 10);
        push_char(s, digit_char_of(n % 10));
        assert(final(s)@ =~= old(s)@ + decimal(n as nat));
    }
}

// ---------------------------------------------------------------------------
// Integer literals: what `str::parse::<i64>` accepts
// ---------------------------------------------------------------------------

pub open spec fn all_digits(s: Seq<char>) -> bool {
    forall|i: int| 0 <= i < s.len() ==> is_digit(#[trigger] s[i])
}

pub open spec fn digit_value(c: char) -> int {
    c as int - '0' as int
}

/// The value of a string of decimal digits.
pub open spec fn digits_value(s: Seq<char>) -> int
    decreases s.len(),
{
    if s.len() == 0 {
        0
    } else {
        digits_value(s.drop_last()) * 10 + digit_value(s.last())
    }
}

/// The integer that `s` spells as `i64::from_str` reads it: an optional `+`
/// or `-`, then at least one decimal digit, the value fitting in an `i64`.
pub open spec fn parse_i64(s: Seq<char>) -> Option<i64> {
    let negative = s.len() > 0 && s[0] == '-';
    let signed = s.len() > 0 && (s[0] == '-' || s[0] == '+');
    let ds = if signed {
        s.drop_first()
    } else {
        s
    };
    let v = if negative {
        -digits_value(ds)
    } else {
        digits_value(ds)
    };
    if ds.len() == 0 || !all_digits(ds) || v < i64::MIN || v > i64::MAX {
        None
    } else {
        Some(v as i64)
    }
}

proof fn lemma_digits_value_nonneg(s: Seq<char>)
    requires
        all_digits(s),
    ensures
        digits_value(s) >= 0,
    decreases s.len(),
{
    if s.len() > 0 {
        assert(all_digits(s.drop_last())) by {
            assert forall|i: int| 0 <= i < s.drop_last().len() implies is_digit(
                #[trigger] s.drop_last()[i],
            ) by {
                assert(s.drop_last()[i] == s[i]);
            }
        }
        lemma_digits_value_nonneg(s.drop_last());
        assert(is_digit(s[s.len() - 1]));
    }
}

/// A longer digit string is worth at least as much as its prefix.
proof fn lemma_digits_value_prefix(s: Seq<char>, k: int)
    requires
        all_digits(s),
        0 <= k <= s.len(),
    ensures
        digits_value(s.take(k)) <= digits_value(s),
    decreases s.len() - k,
{
    if k < s.len() {
        lemma_digits_value_prefix(s, k + 1);
        let t = s.take(k + 1);
        assert(t.drop_last() =~= s.take(k));
        assert(all_digits(s.take(k))) by {
            assert forall|i: int| 0 <= i < s.take(k).len() implies is_digit(#[trigger] s.take(k)[i]) by {
                assert(s.take(k)[i] == s[i]);
            }
        }
        lemma_digits_value_nonneg(s.take(k));
        assert(is_digit(t.last())) by {
            assert(t.last() == s[k]);
        }
    } else {
        assert(s.take(k) =~= s);
    }
}

/// Reads `s` as `str::parse::<i64>` does.
pub fn parse_int(s: &str) -> (r: Option<i64>)
    ensures
        r == parse_i64(s@),
{
    let n = s.unicode_len();
    let ghost sv = s@;
    let mut start: usize = 0;
    let mut negative = false;
    if n > 0 {
        let c = s.get_char(0);
        if c == '-' {
            negative = true;
            start = 1;
        } else if c == '+' {
            start = 1;
        }
    }
    let ghost ds = if start == 1 {
        sv.drop_first()
    } else {
        sv
    };
    assert(ds =~= sv.subrange(start as int, n as int));
    if start == n {
        return None;
    }
    let mut i = start;
    while i < n
        invariant
            n == sv.len(),
            sv == s@,
            start <= i <= n,
            start <= 1,
            negative == (sv.len() > 0 && sv[0] == '-'),
            (start == 1) == (sv.len() > 0 && (sv[0] == '-' || sv[0] == '+')),
            ds == (if start == 1 { sv.drop_first() } else { sv }),
            ds =~= sv.subrange(start as int, n as int),
            forall|j: int| start <= j < i ==> is_digit(#[trigger] sv[j]),
        decreases n - i,
    {
        let c = s.get_char(i);
        if !('0' <= c && c <= '9') {
            assert(!is_digit(ds[i - start]));
            return None;
        }
        i = i + 1;
    }
    assert(all_digits(ds)) by {
        assert forall|j: int| 0 <= j < ds.len() implies is_digit(#[trigger] ds[j]) by {
            assert(ds[j] == sv[start + j]);
        }
    }
    // Magnitude, accumulated while it can still give an i64.
    let mut m: u64 = 0;
    let mut k = start;
    while k < n
        invariant
            n == sv.len(),
            sv == s@,
            start <= k <= n,
            all_digits(ds),
            start <= 1,
            negative == (sv.len() > 0 && sv[0] == '-'),
            (start == 1) == (sv.len() > 0 && (sv[0] == '-' || sv[0] == '+')),
            ds == (if start == 1 { sv.drop_first() } else { sv }),
            ds =~= sv.subrange(start as int, n as int),
            m == digits_value(ds.take(k - start)),
            m <= 9223372036854775808u64,
        decreases n - k,
    {
        let c = s.get_char(k);
        assert(ds[k - start] == c);
        assert(is_digit(c));
        let d = (c as u32 - '0' as u32) as u64;
        proof {
            assert(ds[k - start] == c);
            assert(ds.take(k - start + 1).drop_last() =~= ds.take(k - start));
            assert(ds.take(k - start + 1).last() == c);
        }
        if m > 922337203685477580u64 || (m == 922337203685477580u64 && d > 8) {
            proof {
                lemma_digits_value_prefix(ds, k - start + 1);
                assert(digits_value(ds) > 9223372036854775808);
            }
            return None;
        }
        m = m * 10 + d;
        k = k + 1;
    }
    assert(ds.take(n - start) =~= ds);
    if negative {
        if m == 9223372036854775808u64 {
            Some(i64::MIN)
        } else {
            Some(-(m as i64))
        }
    } else {
        if m == 9223372036854775808u64 {
            None
        } else {
            Some(m as i64)
        }
    }
}

// ---------------------------------------------------------------------------
// Float literals: what `str::parse::<f64>` accepts
// ---------------------------------------------------------------------------

pub open spec fn ascii_lower(c: char) -> char {
    if 'A' <= c && c <= 'Z' {
        ((c as int) + 32) as char
    } else {
        c
    }
}

/// `s` equals the lower-case word `w` when ASCII letters are compared
/// without regard to case.
pub open spec fn eq_ignore_case(s: Seq<char>, w: Seq<char>) -> bool {
    s.len() == w.len() && forall|i: int| 0 <= i < s.len() ==> ascii_lower(#[trigger] s[i]) == w[i]
}

/// `Digit+ | Digit+ '.' Digit* | Digit* '.' Digit+`
pub open spec fn is_mantissa(m: Seq<char>) -> bool {
    let d = first_of(m, '.');
    if d == m.len() {
        m.len() > 0 && all_digits(m)
    } else {
        all_digits(m.take(d)) && all_digits(m.skip(d + 1)) && (d > 0 || m.len() > d + 1)
    }
}

/// The first index of `s` holding `c`, or the length of `s`.
pub open spec fn first_of(s: Seq<char>, c: char) -> int
    decreases s.len(),
{
    if s.len() == 0 || s[0] == c {
        0
    } else {
        1 + first_of(s.drop_first(), c)
    }
}

/// The first index of `s` holding `e` or `E`, or the length of `s`.
pub open spec fn first_exponent_mark(s: Seq<char>) -> int
    decreases s.len(),
{
    if s.len() == 0 || s[0] == 'e' || s[0] == 'E' {
        0
    } else {
        1 + first_exponent_mark(s.drop_first())
    }
}

/// `Sign? Digit+`
pub open spec fn is_exponent_digits(x: Seq<char>) -> bool {
    let ds = if x.len() > 0 && (x[0] == '+' || x[0] == '-') {
        x.drop_first()
    } else {
        x
    };
    ds.len() > 0 && all_digits(ds)
}

/// `Number ::= Mantissa Exp?` with `Exp ::= ('e' | 'E') Sign? Digit+`
pub open spec fn is_number(b: Seq<char>) -> bool {
    let e = first_exponent_mark(b);
    if e == b.len() {
        is_mantissa(b)
    } else {
        is_mantissa(b.take(e)) && is_exponent_digits(b.skip(e + 1))
    }
}

/// Whether `str::parse::<f64>` accepts `s`:
/// `Sign? ( 'inf' | 'infinity' | 'nan' | Number )`, letters in any case.
pub open spec fn is_float_text(s: Seq<char>) -> bool {
    let b = if s.len() > 0 && (s[0] == '+' || s[0] == '-') {
        s.drop_first()
    } else {
        s
    };
    eq_ignore_case(b, seq!['i', 'n', 'f']) || eq_ignore_case(b, seq!['i', 'n', 'f', 'i', 'n', 'i', 't', 'y'])
        || eq_ignore_case(b, seq!['n', 'a', 'n']) || is_number(b)
}


/// The characters of `s`, in order.
pub fn chars_of(s: &str) -> (v: Vec<char>)
    ensures
        v@ == s@,
{
    broadcast use vstd::string::group_string_axioms;

    let mut chars: Vec<char> = Vec::new();
    for c in it: s.chars()
        invariant
            chars@ == it.seq().take(it.index() as int),
    {
        chars.push(c);
    }
    chars
}

fn all_digits_in(v: &Vec<char>, lo: usize, hi: usize) -> (b: bool)
    requires
        lo <= hi <= v@.len(),
    ensures
        b == all_digits(v@.subrange(lo as int, hi as int)),
{
    let mut i = lo;
    while i < hi
        invariant
            lo <= i <= hi <= v@.len(),
            forall|j: int| lo <= j < i ==> is_digit(#[trigger] v@[j]),
        decreases hi - i,
    {
        if !('0' <= v[i] && v[i] <= '9') {
            assert(!is_digit(v@.subrange(lo as int, hi as int)[i - lo]));
            return false;
        }
        i = i + 1;
    }
    assert forall|j: int| 0 <= j < v@.subrange(lo as int, hi as int).len() implies is_digit(
        #[trigger] v@.subrange(lo as int, hi as int)[j],
    ) by {
        assert(v@.subrange(lo as int, hi as int)[j] == v@[lo + j]);
    }
    true
}

fn first_of_in(v: &Vec<char>, lo: usize, hi: usize, c: char) -> (k: usize)
    requires
        lo <= hi <= v@.len(),
    ensures
        k == lo + first_of(v@.subrange(lo as int, hi as int), c),
        lo <= k <= hi,
{
    let mut i = lo;
    while i < hi && v[i] != c
        invariant
            lo <= i <= hi <= v@.len(),
            lo + first_of(v@.subrange(lo as int, hi as int), c) == i + first_of(
                v@.subrange(i as int, hi as int),
                c,
            ),
        decreases hi - i,
    {
        assert(v@.subrange(i as int, hi as int).drop_first() =~= v@.subrange(i + 1, hi as int));
        i = i + 1;
    }
    i
}

fn first_exponent_mark_in(v: &Vec<char>, lo: usize, hi: usize) -> (k: usize)
    requires
        lo <= hi <= v@.len(),
    ensures
        k == lo + first_exponent_mark(v@.subrange(lo as int, hi as int)),
        lo <= k <= hi,
{
    let mut i = lo;
    while i < hi && v[i] != 'e' && v[i] != 'E'
        invariant
            lo <= i <= hi <= v@.len(),
            lo + first_exponent_mark(v@.subrange(lo as int, hi as int)) == i + first_exponent_mark(
                v@.subrange(i as int, hi as int),
            ),
        decreases hi - i,
    {
        assert(v@.subrange(i as int, hi as int).drop_first() =~= v@.subrange(i + 1, hi as int));
        i = i + 1;
    }
    i
}

fn lower_of(c: char) -> (r: char)
    ensures
        r == ascii_lower(c),
{
    if 'A' <= c && c <= 'Z' {
        ((c as u32) + 32) as u8 as char
    } else {
        c
    }
}

fn eq_ignore_case_in(v: &Vec<char>, lo: usize, hi: usize, w: &str) -> (b: bool)
    requires
        lo <= hi <= v@.len(),
    ensures
        b == eq_ignore_case(v@.subrange(lo as int, hi as int), w@),
{
    let n = w.unicode_len();
    if hi - lo != n {
        return false;
    }
    let mut i: usize = 0;
    while i < n
        invariant
            n == w@.len(),
            hi - lo == n,
            lo <= hi <= v@.len(),
            i <= n,
            forall|j: int| 0 <= j < i ==> ascii_lower(#[trigger] v@[lo + j]) == w@[j],
        decreases n - i,
    {
        if lower_of(v[lo + i]) != w.get_char(i) {
            assert(v@.subrange(lo as int, hi as int)[i as int] == v@[lo + i]);
            return false;
        }
        i = i + 1;
    }
    assert forall|j: int| 0 <= j < v@.subrange(lo as int, hi as int).len() implies ascii_lower(
        #[trigger] v@.subrange(lo as int, hi as int)[j],
    ) == w@[j] by {
        assert(v@.subrange(lo as int, hi as int)[j] == v@[lo + j]);
    }
    true
}

fn is_mantissa_in(v: &Vec<char>, lo: usize, hi: usize) -> (b: bool)
    requires
        lo <= hi <= v@.len(),
    ensures
        b == is_mantissa(v@.subrange(lo as int, hi as int)),
{
    let ghost m = v@.subrange(lo as int, hi as int);
    let d = first_of_in(v, lo, hi, '.');
    if d == hi {
        hi > lo && all_digits_in(v, lo, hi)
    } else {
        assert(m.take(d - lo) =~= v@.subrange(lo as int, d as int));
        assert(m.skip(d - lo + 1) =~= v@.subrange(d + 1, hi as int));
        all_digits_in(v, lo, d) && all_digits_in(v, d + 1, hi) && (d > lo || hi > d + 1)
    }
}

fn is_exponent_digits_in(v: &Vec<char>, lo: usize, hi: usize) -> (b: bool)
    requires
        lo <= hi <= v@.len(),
    ensures
        b == is_exponent_digits(v@.subrange(lo as int, hi as int)),
{
    let ghost x = v@.subrange(lo as int, hi as int);
    let start = if lo < hi && (v[lo] == '+' || v[lo] == '-') {
        assert(x.drop_first() =~= v@.subrange(lo + 1, hi as int));
        lo + 1
    } else {
        lo
    };
    hi > start && all_digits_in(v, start, hi)
}

/// Whether `s` is text that `str::parse::<f64>` accepts.
pub fn is_float_literal(s: &str) -> (b: bool)
    ensures
        b == is_float_text(s@),
{
    let v = chars_of(s);
    let n = v.len();
    let ghost sv = v@;
    let start: usize = if n > 0 && (v[0] == '+' || v[0] == '-') {
        1
    } else {
        0
    };
    let ghost b = v@.subrange(start as int, n as int);
    assert(b =~= (if sv.len() > 0 && (sv[0] == '+' || sv[0] == '-') {
        sv.drop_first()
    } else {
        sv
    }));
    if eq_ignore_case_in(&v, start, n, "inf") || eq_ignore_case_in(&v, start, n, "infinity")
        || eq_ignore_case_in(&v, start, n, "nan") {
        proof {
            reveal_strlit("inf");
            reveal_strlit("infinity");
            reveal_strlit("nan");
            assert("inf"@ =~= seq!['i', 'n', 'f']);
            assert("infinity"@ =~= seq!['i', 'n', 'f', 'i', 'n', 'i', 't', 'y']);
            assert("nan"@ =~= seq!['n', 'a', 'n']);
        }
        return true;
    }
    proof {
        reveal_strlit("inf");
        reveal_strlit("infinity");
        reveal_strlit("nan");
        assert("inf"@ =~= seq!['i', 'n', 'f']);
        assert("infinity"@ =~= seq!['i', 'n', 'f', 'i', 'n', 'i', 't', 'y']);
        assert("nan"@ =~= seq!['n', 'a', 'n']);
    }
    let e = first_exponent_mark_in(&v, start, n);
    if e == n {
        is_mantissa_in(&v, start, n)
    } else {
        assert(b.take(e - start) =~= v@.subrange(start as int, e as int));
        assert(b.skip(e - start + 1) =~= v@.subrange(e + 1, n as int));
        is_mantissa_in(&v, start, e) && is_exponent_digits_in(&v, e + 1, n)
    }
}

} // verus!
