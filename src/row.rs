//! Parsing of one `key:value` line.
//!
//! A value is a decimal number: an optional sign, digits, and an optional
//! `.` followed by digits, with at least one digit in all. It is held as a
//! fixed-point integer counting millionths; fraction digits past the sixth
//! are dropped (truncation toward zero). A value whose magnitude exceeds
//! `MAX_UNITS` millionths is not a value.
use vstd::prelude::*;
use crate::stats::MAX_UNITS;

verus! {

/// Number of fixed-point units in one.
pub const UNITS_PER_ONE: u64 = 1000000;

/// Number of fraction digits that a value keeps.
pub const FRACTION_DIGITS: usize = 6;

/// Largest integer part that a value may have.
pub const MAX_WHOLE: u64 = 9223372036854;

/// White space as Unicode's `White_Space` property defines it.
pub open spec fn is_ws(c: char) -> bool {
    let u = c as u32;
    (9 <= u <= 13) || u == 32 || u == 0x85 || u == 0xA0 || u == 0x1680 || (0x2000 <= u <= 0x200A)
        || u == 0x2028 || u == 0x2029 || u == 0x202F || u == 0x205F || u == 0x3000
}

pub open spec fn is_digit(c: char) -> bool {
    '0' <= c <= '9'
}

pub open spec fn digit(c: char) -> int {
    c as int - '0' as int
}

/// First index from `i` on, below `hi`, that is not white space.
pub open spec fn skip_ws(s: Seq<char>, i: int, hi: int) -> int
    decreases hi - i,
{
    if i < hi && is_ws(s[i]) {
        skip_ws(s, i + 1, hi)
    } else {
        i
    }
}

/// End of `s[lo..j]` once trailing white space is dropped.
pub open spec fn back_ws(s: Seq<char>, lo: int, j: int) -> int
    decreases j - lo,
{
    if lo < j && is_ws(s[j - 1]) {
        back_ws(s, lo, j - 1)
    } else {
        j
    }
}

/// Index of the first `:` in `s[i..hi]`, or `hi` if there is none.
pub open spec fn find_colon(s: Seq<char>, i: int, hi: int) -> int
    decreases hi - i,
{
    if i < hi && s[i] != ':' {
        find_colon(s, i + 1, hi)
    } else {
        i
    }
}

/// End of the run of digits that starts at `i`, below `hi`.
pub open spec fn digits_end(s: Seq<char>, i: int, hi: int) -> int
    decreases hi - i,
{
    if i < hi && is_digit(s[i]) {
        digits_end(s, i + 1, hi)
    } else {
        i
    }
}

/// The number that the digits `s[lo..hi]` write in base ten.
pub open spec fn digits_value(s: Seq<char>, lo: int, hi: int) -> int
    decreases hi - lo,
{
    if lo < hi {
        digits_value(s, lo, hi - 1) * 10 + digit(s[hi - 1])
    } else {
        0
    }
}

/// The first `n` digits of `s[lo..hi]` as a number, padded with zeros where
/// there are fewer than `n`.
pub open spec fn padded_fraction(s: Seq<char>, lo: int, hi: int, n: nat) -> int
    decreases n,
{
    if n == 0 {
        0
    } else {
        padded_fraction(s, lo, hi, (n - 1) as nat) * 10 + if lo + n - 1 < hi {
            digit(s[lo + n - 1])
        } else {
            0
        }
    }
}

pub open spec fn pow10(n: nat) -> int
    decreases n,
{
    if n == 0 {
        1
    } else {
        10 * pow10((n - 1) as nat)
    }
}

/// The decimal number written by `s[lo..hi]`, in fixed-point units, if the
/// text is one.
pub open spec fn decimal_units(s: Seq<char>, lo: int, hi: int) -> Option<int> {
    let signed = lo < hi && (s[lo] == '-' || s[lo] == '+');
    let negative = lo < hi && s[lo] == '-';
    let start = if signed { lo + 1 } else { lo };
    let p = digits_end(s, start, hi);
    let dot = p < hi && s[p] == '.';
    let fl = if dot { p + 1 } else { p };
    let q = if dot { digits_end(s, fl, hi) } else { p };
    if q != hi || (p == start && q == fl) {
        None
    } else {
        let mag = digits_value(s, start, p) * UNITS_PER_ONE + padded_fraction(
            s,
            fl,
            q,
            FRACTION_DIGITS as nat,
        );
        if mag > MAX_UNITS {
            None
        } else {
            Some(if negative { -mag } else { mag })
        }
    }
}

/// What a line holds: `None` for a line to skip, else its trimmed key and
/// its value. The line is trimmed; a blank line or one without `:` is
/// skipped; otherwise it is split at its first `:` and both parts are
/// trimmed; the line is skipped unless the value part is a decimal number.
pub open spec fn parse_row_spec(s: Seq<char>) -> Option<(Seq<char>, int)> {
    let lo = skip_ws(s, 0, s.len() as int);
    let hi = back_ws(s, lo, s.len() as int);
    let c = find_colon(s, lo, hi);
    let klo = skip_ws(s, lo, c);
    let khi = back_ws(s, klo, c);
    let vlo = skip_ws(s, c + 1, hi);
    let vhi = back_ws(s, vlo, hi);
    if lo == hi || c == hi {
        None
    } else {
        match decimal_units(s, vlo, vhi) {
            Some(v) => Some((s.subrange(klo, khi), v)),
            None => None,
        }
    }
}

proof fn lemma_find_colon_none(s: Seq<char>, i: int, hi: int)
    requires
        i <= hi <= s.len(),
        forall|k: int| i <= k < hi ==> #[trigger] s[k] != ':',
    ensures
        find_colon(s, i, hi) == hi,
    decreases hi - i,
{
    if i < hi {
        lemma_find_colon_none(s, i + 1, hi);
    }
}

proof fn lemma_skip_ws_all(s: Seq<char>, i: int, hi: int)
    requires
        i <= hi <= s.len(),
        forall|k: int| i <= k < hi ==> is_ws(#[trigger] s[k]),
    ensures
        skip_ws(s, i, hi) == hi,
    decreases hi - i,
{
    if i < hi {
        lemma_skip_ws_all(s, i + 1, hi);
    }
}

/// Malformed lines are skipped: a line without `:`, and a line of white
/// space only (the empty line included), hold no observation.
pub proof fn lemma_malformed_rows(s: Seq<char>)
    ensures
        (forall|k: int| 0 <= k < s.len() ==> #[trigger] s[k] != ':') ==> parse_row_spec(s) is None,
        (forall|k: int| 0 <= k < s.len() ==> is_ws(#[trigger] s[k])) ==> parse_row_spec(s) is None,
{
    let n = s.len() as int;
    lemma_skip_ws(s, 0, n);
    let lo = skip_ws(s, 0, n);
    lemma_back_ws(s, lo, n);
    let hi = back_ws(s, lo, n);
    if forall|k: int| 0 <= k < s.len() ==> #[trigger] s[k] != ':' {
        lemma_find_colon_none(s, lo, hi);
    }
    if forall|k: int| 0 <= k < s.len() ==> is_ws(#[trigger] s[k]) {
        lemma_skip_ws_all(s, 0, n);
    }
}

proof fn lemma_skip_ws(s: Seq<char>, i: int, hi: int)
    requires
        i <= hi,
    ensures
        i <= skip_ws(s, i, hi) <= hi,
    decreases hi - i,
{
    if i < hi && is_ws(s[i]) {
        lemma_skip_ws(s, i + 1, hi);
    }
}

proof fn lemma_back_ws(s: Seq<char>, lo: int, j: int)
    requires
        lo <= j,
    ensures
        lo <= back_ws(s, lo, j) <= j,
    decreases j - lo,
{
    if lo < j && is_ws(s[j - 1]) {
        lemma_back_ws(s, lo, j - 1);
    }
}

proof fn lemma_digits_end(s: Seq<char>, i: int, hi: int)
    requires
        i <= hi,
    ensures
        i <= digits_end(s, i, hi) <= hi,
        forall|k: int| i <= k < digits_end(s, i, hi) ==> is_digit(#[trigger] s[k]),
    decreases hi - i,
{
    if i < hi && is_digit(s[i]) {
        lemma_digits_end(s, i + 1, hi);
    }
}

proof fn lemma_digits_monotone(s: Seq<char>, lo: int, i: int, j: int)
    requires
        lo <= i <= j <= s.len(),
        forall|k: int| lo <= k < j ==> is_digit(#[trigger] s[k]),
    ensures
        0 <= digits_value(s, lo, i) <= digits_value(s, lo, j),
    decreases j - lo,
{
    if lo < j {
        assert(is_digit(s[j - 1]));
        if i < j {
            lemma_digits_monotone(s, lo, i, j - 1);
        } else {
            lemma_digits_monotone(s, lo, j - 1, j - 1);
        }
    }
}

proof fn lemma_padded_bound(s: Seq<char>, lo: int, hi: int, n: nat)
    requires
        forall|k: int| lo <= k < hi ==> is_digit(#[trigger] s[k]),
    ensures
        0 <= padded_fraction(s, lo, hi, n) < pow10(n),
    decreases n,
{
    if n > 0 {
        lemma_padded_bound(s, lo, hi, (n - 1) as nat);
        if lo + n - 1 < hi {
            assert(is_digit(s[lo + n - 1]));
        }
    }
}

/// Whether `c` is white space.
pub fn is_ws_char(c: char) -> (r: bool)
    ensures
        r == is_ws(c),
{
    let u = c as u32;
    (9 <= u && u <= 13) || u == 32 || u == 0x85 || u == 0xA0 || u == 0x1680 || (0x2000 <= u && u
        <= 0x200A) || u == 0x2028 || u == 0x2029 || u == 0x202F || u == 0x205F || u == 0x3000
}

fn skip_ws_exec(s: &Vec<char>, i: usize, hi: usize) -> (r: usize)
    requires
        i <= hi <= s@.len(),
    ensures
        r == skip_ws(s@, i as int, hi as int),
        i <= r <= hi,
{
    let mut j = i;
    while j < hi && is_ws_char(s[j])
        invariant
            i <= j <= hi <= s@.len(),
            skip_ws(s@, i as int, hi as int) == skip_ws(s@, j as int, hi as int),
        decreases hi - j,
    {
        j = j + 1;
    }
    j
}

fn back_ws_exec(s: &Vec<char>, lo: usize, j: usize) -> (r: usize)
    requires
        lo <= j <= s@.len(),
    ensures
        r == back_ws(s@, lo as int, j as int),
        lo <= r <= j,
{
    let mut k = j;
    while lo < k && is_ws_char(s[k - 1])
        invariant
            lo <= k <= j <= s@.len(),
            back_ws(s@, lo as int, j as int) == back_ws(s@, lo as int, k as int),
        decreases k - lo,
    {
        k = k - 1;
    }
    k
}

fn find_colon_exec(s: &Vec<char>, i: usize, hi: usize) -> (r: usize)
    requires
        i <= hi <= s@.len(),
    ensures
        r == find_colon(s@, i as int, hi as int),
        i <= r <= hi,
{
    let mut j = i;
    while j < hi && s[j] != ':'
        invariant
            i <= j <= hi <= s@.len(),
            find_colon(s@, i as int, hi as int) == find_colon(s@, j as int, hi as int),
        decreases hi - j,
    {
        j = j + 1;
    }
    j
}

fn is_digit_char(c: char) -> (r: bool)
    ensures
        r == is_digit(c),
{
    '0' <= c && c <= '9'
}

fn digits_end_exec(s: &Vec<char>, i: usize, hi: usize) -> (r: usize)
    requires
        i <= hi <= s@.len(),
    ensures
        r == digits_end(s@, i as int, hi as int),
        i <= r <= hi,
{
    let mut j = i;
    while j < hi && is_digit_char(s[j])
        invariant
            i <= j <= hi <= s@.len(),
            digits_end(s@, i as int, hi as int) == digits_end(s@, j as int, hi as int),
        decreases hi - j,
    {
        j = j + 1;
    }
    j
}

/// Reads the decimal number `s[lo..hi]` as fixed-point units.
pub fn parse_units(s: &Vec<char>, lo: usize, hi: usize) -> (r: Option<i64>)
    requires
        lo <= hi <= s@.len(),
    ensures
        match r {
            Some(v) => decimal_units(s@, lo as int, hi as int) == Some(v as int) && -MAX_UNITS <= v
                <= MAX_UNITS,
            None => decimal_units(s@, lo as int, hi as int) is None,
        },
{
    let ghost sv = s@;
    let signed = lo < hi && (s[lo] == '-' || s[lo] == '+');
    let negative = lo < hi && s[lo] == '-';
    let start = if signed { lo + 1 } else { lo };
    let ghost p = digits_end(sv, start as int, hi as int);
    proof {
        lemma_digits_end(sv, start as int, hi as int);
    }
    // integer part
    let mut whole: u64 = 0;
    let mut i = start;
    while i < hi && is_digit_char(s[i])
        invariant
            start <= i <= hi <= sv.len(),
            sv == s@,
            p == digits_end(sv, i as int, hi as int),
            p == digits_end(sv, start as int, hi as int),
            start <= p <= hi,
            signed == (lo < hi && (sv[lo as int] == '-' || sv[lo as int] == '+')),
            negative == (lo < hi && sv[lo as int] == '-'),
            start == if signed { lo + 1 } else { lo as int },
            forall|k: int| start <= k < p ==> is_digit(#[trigger] sv[k]),
            whole == digits_value(sv, start as int, i as int),
            whole <= MAX_WHOLE,
        decreases hi - i,
    {
        let d = (s[i] as u32 - '0' as u32) as u64;
        let next = whole * 10 + d;
        proof {
            lemma_digits_end(sv, i as int, hi as int);
        }
        if next > MAX_WHOLE {
            proof {
                lemma_digits_end(sv, (i + 1) as int, hi as int);
                lemma_digits_monotone(sv, start as int, (i + 1) as int, p);
                let fl = if p < hi && sv[p] == '.' { p + 1 } else { p };
                let q = if p < hi && sv[p] == '.' { digits_end(sv, fl, hi as int) } else { p };
                if p < hi && sv[p] == '.' {
                    lemma_digits_end(sv, fl, hi as int);
                }
                lemma_padded_bound(sv, fl, q, FRACTION_DIGITS as nat);
                assert(next == digits_value(sv, start as int, (i + 1) as int));
                assert(digits_value(sv, start as int, p) >= MAX_WHOLE + 1);
                assert(digits_value(sv, start as int, p) * UNITS_PER_ONE > MAX_UNITS);
            }
            return None;
        }
        whole = next;
        i = i + 1;
    }
    let p_exec = i;
    let dot = p_exec < hi && s[p_exec] == '.';
    let fl = if dot { p_exec + 1 } else { p_exec };
    let q = if dot { digits_end_exec(s, fl, hi) } else { p_exec };
    if q != hi || (p_exec == start && q == fl) {
        return None;
    }
    proof {
        if dot {
            lemma_digits_end(sv, fl as int, hi as int);
        }
    }
    // fraction part, padded or truncated to FRACTION_DIGITS digits
    let mut frac: u64 = 0;
    let mut k: usize = 0;
    while k < FRACTION_DIGITS
        invariant
            k <= FRACTION_DIGITS,
            fl <= q <= hi <= sv.len(),
            sv == s@,
            forall|m: int| fl <= m < q ==> is_digit(#[trigger] sv[m]),
            frac == padded_fraction(sv, fl as int, q as int, k as nat),
            frac < pow10(k as nat),
            pow10(k as nat) <= 1000000,
        decreases FRACTION_DIGITS - k,
    {
        let d: u64 = if k < q - fl {
            assert(is_digit(sv[fl + k]));
            (s[fl + k] as u32 - '0' as u32) as u64
        } else {
            0
        };
        proof {
            assert(pow10((k + 1) as nat) == 10 * pow10(k as nat));
            if k + 1 < FRACTION_DIGITS {
                assert(pow10(k as nat) <= 100000) by {
                    reveal_with_fuel(pow10, 7);
                    assert(pow10(6) == 1000000);
                    if k == 0 {} else if k == 1 {} else if k == 2 {} else if k == 3 {} else if k == 4 {}
                }
            }
        }
        frac = frac * 10 + d;
        k = k + 1;
    }
    let mag: u64 = whole * UNITS_PER_ONE + frac;
    if mag > MAX_UNITS as u64 {
        return None;
    }
    let m = mag as i64;
    if negative {
        Some(-m)
    } else {
        Some(m)
    }
}

/// Copies the characters of `line`.
fn chars_of(line: &str) -> (r: Vec<char>)
    ensures
        r@ == line@,
{
    let mut v: Vec<char> = Vec::new();
    for c in it: line.chars()
        invariant
            it.seq() == line@,
            v@ == line@.subrange(0, it.index() as int),
    {
        v.push(c);
        assert(v@ =~= line@.subrange(0, it.index() + 1));
    }
    assert(v@ =~= line@);
    v
}

/// Splits one line into its key and value, or `None` for a line to skip.
pub fn parse_row(line: &str) -> (r: Option<(String, i64)>)
    ensures
        match r {
            Some((k, v)) => parse_row_spec(line@) == Some((k@, v as int)) && -MAX_UNITS <= v
                <= MAX_UNITS,
            None => parse_row_spec(line@) is None,
        },
{
    let s = chars_of(line);
    let n = s.len();
    let lo = skip_ws_exec(&s, 0, n);
    let hi = back_ws_exec(&s, lo, n);
    if lo == hi {
        return None;
    }
    let c = find_colon_exec(&s, lo, hi);
    if c == hi {
        return None;
    }
    let klo = skip_ws_exec(&s, lo, c);
    let khi = back_ws_exec(&s, klo, c);
    let vlo = skip_ws_exec(&s, c + 1, hi);
    let vhi = back_ws_exec(&s, vlo, hi);
    match parse_units(&s, vlo, vhi) {
        Some(v) => {
            let key = line.substring_char(klo, khi).to_owned();
            Some((key, v))
        },
        None => None,
    }
}

} // verus!
