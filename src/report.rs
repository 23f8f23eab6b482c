//! The report: one line per key with its bounds and mean to two decimals.
use vstd::prelude::*;
use crate::stats::{KeyStats, Summary, summary_wf, MAX_UNITS};

verus! {

/// Fixed-point units in one hundredth.
pub const UNITS_PER_HUNDREDTH: u64 = 10000;

/// `n / d` rounded to the nearest integer, halves away from zero.
pub open spec fn round_div(n: int, d: int) -> int {
    let a = if n < 0 { -n } else { n };
    let q = a / d + if 2 * (a % d) >= d { 1int } else { 0int };
    if n < 0 { -q } else { q }
}

pub open spec fn digit_char(d: int) -> char {
    ('0' as int + d) as char
}

/// The decimal digits of `n`, most significant first, without leading zeros.
pub open spec fn digits_text(n: nat) -> Seq<char>
    decreases n,
{
    if n < 10 {
        seq![digit_char(n as int)]
    } else {
        digits_text(n / 10).push(digit_char((n % 10) as int))
    }
}

/// `h` hundredths written with two decimals: `-12.05`, `0.50`.
pub open spec fn fixed2_text(h: int) -> Seq<char> {
    let a = if h < 0 { -h } else { h };
    let sign = if h < 0 { seq!['-'] } else { Seq::empty() };
    sign + digits_text((a / 100) as nat) + seq!['.', digit_char((a / 10) % 10), digit_char(a % 10)]
}

/// The report line of one key: `key: min: X.XX, max: X.XX, avg: X.XX`.
pub open spec fn report_line_spec(key: Seq<char>, s: Summary) -> Seq<char> {
    key + seq![':', ' ', 'm', 'i', 'n', ':', ' '] + fixed2_text(
        round_div(s.min, UNITS_PER_HUNDREDTH as int),
    ) + seq![',', ' ', 'm', 'a', 'x', ':', ' '] + fixed2_text(
        round_div(s.max, UNITS_PER_HUNDREDTH as int),
    ) + seq![',', ' ', 'a', 'v', 'g', ':', ' '] + fixed2_text(
        round_div(s.total, s.count * UNITS_PER_HUNDREDTH),
    )
}

fn digit_str(d: u32) -> (r: &'static str)
    requires
        d < 10,
    ensures
        r@ == seq![digit_char(d as int)],
{
    proof {
        reveal_strlit("0");
        reveal_strlit("1");
        reveal_strlit("2");
        reveal_strlit("3");
        reveal_strlit("4");
        reveal_strlit("5");
        reveal_strlit("6");
        reveal_strlit("7");
        reveal_strlit("8");
        reveal_strlit("9");
    }
    let r = match d {
        0 => "0",
        1 => "1",
        2 => "2",
        3 => "3",
        4 => "4",
        5 => "5",
        6 => "6",
        7 => "7",
        8 => "8",
        _ => "9",
    };
    assert(r@ =~= seq![digit_char(d as int)]);
    r
}

fn push_digits(v: &mut String, n: u128)
    ensures
        final(v)@ == old(v)@ + digits_text(n as nat),
    decreases n,
{
    if n >= 10 {
        push_digits(v, n / 10);
    }
    let d = (n % 10) as u32;
    v.append(digit_str(d));
    assert(v@ =~= old(v)@ + digits_text(n as nat));
}

/// Appends `n / d` rounded to hundredths, `n` counting units of one
/// hundredth times `d / UNITS_PER_HUNDREDTH`.
fn push_rounded(v: &mut String, n: i128, d: u128)
    requires
        d > 0,
        d <= 0xffff_ffff_ffff_ffff_ffff_ffff,
        n > i128::MIN,
    ensures
        final(v)@ == old(v)@ + fixed2_text(round_div(n as int, d as int)),
{
    let negative = n < 0;
    let a: u128 = if negative { (-n) as u128 } else { n as u128 };
    let r = a % d;
    proof {
        vstd::arithmetic::div_mod::lemma_div_is_ordered_by_denominator(a as int, 1, d as int);
        assert(a as int / 1 == a);
        reveal_strlit("-");
        reveal_strlit(".");
    }
    let q: u128 = a / d + if 2 * r >= d { 1 } else { 0 };
    let h_is_neg = negative && q > 0;
    if h_is_neg {
        v.append("-");
    }
    push_digits(v, q / 100);
    v.append(".");
    v.append(digit_str(((q / 10) % 10) as u32));
    v.append(digit_str((q % 10) as u32));
    proof {
        let h = round_div(n as int, d as int);
        assert(h == if negative { -(q as int) } else { q as int });
        assert(v@ =~= old(v)@ + fixed2_text(h));
    }
}

/// The report line of `key`: `key: min: X.XX, max: X.XX, avg: X.XX`, each
/// number rounded to hundredths, halves away from zero.
pub fn report_line(key: &str, stats: &KeyStats) -> (r: String)
    requires
        stats.wf(),
    ensures
        r@ == report_line_spec(key@, stats@),
{
    proof {
        reveal_strlit(": min: ");
        reveal_strlit(", max: ");
        reveal_strlit(", avg: ");
    }
    let mut v = key.to_owned();
    v.append(": min: ");
    push_rounded(&mut v, stats.min() as i128, UNITS_PER_HUNDREDTH as u128);
    v.append(", max: ");
    push_rounded(&mut v, stats.max() as i128, UNITS_PER_HUNDREDTH as u128);
    v.append(", avg: ");
    let count = stats.count();
    proof {
        let s = stats@;
        assert(summary_wf(s));
        assert(s.count * s.min >= s.count * (-MAX_UNITS)) by (nonlinear_arith)
            requires
                s.count >= 1,
                s.min >= -MAX_UNITS,
        ;
        assert(s.count * (-MAX_UNITS) > i128::MIN) by (nonlinear_arith)
            requires
                s.count <= u64::MAX,
        ;
    }
    push_rounded(&mut v, stats.total(), count as u128 * UNITS_PER_HUNDREDTH as u128);
    let ghost k = key@;
    let ghost s = stats@;
    assert(v@ =~= report_line_spec(k, s));
    v
}

} // verus!
