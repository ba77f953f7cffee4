//! Presentation helpers: progress bars, percentages, abbreviated token
//! counts, dollar amounts and reset clocks. Locale-independent: always a
//! `.` decimal separator.

use vstd::prelude::*;

use crate::text::{decimal, digit_char, pad2, push_decimal, push_pad2, push_str};

verus! {

/// `jiff::Timestamp`, an instant in time.
#[verifier::external_type_specification]
#[verifier::external_body]
pub struct ExTimestamp(jiff::Timestamp);

/// `jiff::tz::TimeZone`.
#[verifier::external_type_specification]
#[verifier::external_body]
pub struct ExTimeZone(jiff::tz::TimeZone);

/// Number of filled cells in a bar of `width` cells at `percent` (a whole
/// percent, 0 to 100): one cell per full ten percent, scaled to the width.
pub open spec fn filled_cells(percent: u8, width: nat) -> nat {
    let p = if percent > 100 { 100nat } else { percent as nat };
    let f = (p / 10) * width / 10;
    if f > width { width } else { f }
}

pub fn bar_filled_count(percent: u8, width: usize) -> (n: usize)
    requires
        width <= usize::MAX / 10,
    ensures
        n == filled_cells(percent, width as nat),
        n <= width,
{
    let p: usize = if percent > 100 { 100 } else { percent as usize };
    let q = p / 10;
    proof {
        assert(q * width <= 10 * width) by (nonlinear_arith)
            requires
                q <= 10,
        ;
    }
    let f = q * width / 10;
    if f > width { width } else { f }
}

pub open spec fn repeat_char(c: char, n: nat) -> Seq<char> {
    Seq::new(n, |_i: int| c)
}

fn push_repeat(s: &mut String, c: char, n: usize)
    ensures
        final(s)@ == old(s)@ + repeat_char(c, n as nat),
{
    let mut i: usize = 0;
    while i < n
        invariant
            i <= n,
            s@ == old(s)@ + repeat_char(c, i as nat),
        decreases n - i,
    {
        s.push(c);
        i += 1;
        proof {
            assert(s@ =~= old(s)@ + repeat_char(c, i as nat));
        }
    }
}

/// The inner cells of a progress bar.
pub open spec fn bar_spec(percent: u8, width: nat, filled: char, empty: char) -> Seq<char> {
    repeat_char(filled, filled_cells(percent, width)) + repeat_char(
        empty,
        (width - filled_cells(percent, width)) as nat,
    )
}

/// `21` → `##........` for width 10.
pub fn format_bar(percent: u8, width: usize, filled: char, empty: char) -> (s: String)
    requires
        width <= usize::MAX / 10,
    ensures
        s@ == bar_spec(percent, width as nat, filled, empty),
{
    let cells = bar_filled_count(percent, width);
    let mut s = String::new();
    push_repeat(&mut s, filled, cells);
    push_repeat(&mut s, empty, width - cells);
    s
}

/// `[##........]`.
pub fn format_bar_wrapped(percent: u8, width: usize, filled: char, empty: char) -> (s: String)
    requires
        width <= usize::MAX / 10,
    ensures
        s@ == seq!['['] + bar_spec(percent, width as nat, filled, empty) + seq![']'],
{
    let mut out = String::new();
    out.push('[');
    let bar = format_bar(percent, width, filled, empty);
    push_str(&mut out, bar.as_str());
    out.push(']');
    proof {
        assert(out@ =~= seq!['['] + bar_spec(percent, width as nat, filled, empty) + seq![']']);
    }
    out
}

pub open spec fn percent_paren_spec(percent: u8) -> Seq<char> {
    let p = if percent > 100 { 100nat } else { percent as nat };
    seq!['('] + decimal(p) + seq!['%', ')']
}

/// `(21%)`, clamped to 100.
pub fn format_percent_paren(percent: u8) -> (s: String)
    ensures
        s@ == percent_paren_spec(percent),
{
    let p: u64 = if percent > 100 { 100 } else { percent as u64 };
    let mut s = String::new();
    s.push('(');
    push_decimal(&mut s, p);
    s.push('%');
    s.push(')');
    proof {
        assert(s@ =~= percent_paren_spec(percent));
    }
    s
}

/// `t` tenths with one decimal, then `suffix`: `853` → `85.3`.
pub open spec fn tenths_spec(t: nat, suffix: char) -> Seq<char> {
    decimal(t / 10) + seq!['.', digit_char(t % 10), suffix]
}

/// `742` → `742`, `85_300` → `85.3K`, `1_000_000` → `1.0M`: thousands and
/// millions truncated to one decimal, which is always shown.
pub open spec fn abbreviate_spec(v: nat) -> Seq<char> {
    if v >= 1_000_000 {
        tenths_spec(v / 100_000, 'M')
    } else if v >= 1000 {
        tenths_spec(v / 100, 'K')
    } else {
        decimal(v)
    }
}

fn push_tenths(s: &mut String, t: u64, suffix: char)
    ensures
        final(s)@ == old(s)@ + tenths_spec(t as nat, suffix),
{
    push_decimal(s, t / 10);
    s.push('.');
    s.push(((t % 10) as u8 + 48) as char);
    s.push(suffix);
    proof {
        assert(final(s)@ =~= old(s)@ + tenths_spec(t as nat, suffix));
    }
}

/// Abbreviated token count.
pub fn abbreviate_tokens(value: u64) -> (s: String)
    ensures
        s@ == abbreviate_spec(value as nat),
{
    let mut s = String::new();
    if value >= 1_000_000 {
        push_tenths(&mut s, value / 100_000, 'M');
    } else if value >= 1_000 {
        push_tenths(&mut s, value / 100, 'K');
    } else {
        push_decimal(&mut s, value);
    }
    proof {
        assert(s@ =~= abbreviate_spec(value as nat));
    }
    s
}

/// Absolute value of a cent amount.
pub open spec fn abs_cents(c: i64) -> nat {
    if c < 0 { (-c) as nat } else { c as nat }
}

/// `$D.CC`, with a `-` after the `$` for a negative amount.
pub open spec fn cost_spec(cents: i64) -> Seq<char> {
    let a = abs_cents(cents);
    seq!['$'] + (if cents < 0 { seq!['-'] } else { seq![] }) + decimal(a / 100) + seq!['.']
        + pad2(a % 100)
}

/// Dollar amount from whole cents: `255` → `$2.55`.
pub fn format_cost_cents(cents: i64) -> (s: String)
    ensures
        s@ == cost_spec(cents),
{
    let wide = cents as i128;
    let a: u64 = if wide < 0 { (-wide) as u64 } else { wide as u64 };
    let mut s = String::new();
    s.push('$');
    if cents < 0 {
        s.push('-');
    }
    push_decimal(&mut s, a / 100);
    s.push('.');
    push_pad2(&mut s, a % 100);
    proof {
        assert(s@ =~= cost_spec(cents));
    }
    s
}

/// The civil month, day, hour and minute of `ts` in `tz`
/// (`ts.to_zoned(tz)`). The result depends on the time zone database the
/// process sees, so the contract states only the documented ranges.
#[verifier::external_body]
fn zoned_fields(ts: jiff::Timestamp, tz: &jiff::tz::TimeZone) -> (r: (i8, i8, i8, i8))
    ensures
        1 <= r.0 <= 12,
        1 <= r.1 <= 31,
        0 <= r.2 <= 23,
        0 <= r.3 <= 59,
{
    let z = ts.to_zoned(tz.clone());
    (z.month(), z.day(), z.hour(), z.minute())
}

pub open spec fn clock_spec(hour: nat, minute: nat) -> Seq<char> {
    pad2(hour) + seq![':'] + pad2(minute)
}

/// `HH:mm`, 24-hour.
pub fn clock_text(hour: u8, minute: u8) -> (s: String)
    requires
        hour < 100,
        minute < 100,
    ensures
        s@ == clock_spec(hour as nat, minute as nat),
{
    let mut s = String::new();
    push_pad2(&mut s, hour as u64);
    s.push(':');
    push_pad2(&mut s, minute as u64);
    proof {
        assert(s@ =~= clock_spec(hour as nat, minute as nat));
    }
    s
}

pub open spec fn weekly_reset_spec(month: nat, day: nat, hour: nat, minute: nat) -> Seq<char> {
    decimal(month) + seq!['/'] + decimal(day) + seq![' '] + clock_spec(hour, minute)
}

/// `M/d HH:mm`: no zero padding on month and day, no year.
pub fn weekly_reset_text(month: u8, day: u8, hour: u8, minute: u8) -> (s: String)
    requires
        hour < 100,
        minute < 100,
    ensures
        s@ == weekly_reset_spec(month as nat, day as nat, hour as nat, minute as nat),
{
    let mut s = String::new();
    push_decimal(&mut s, month as u64);
    s.push('/');
    push_decimal(&mut s, day as u64);
    s.push(' ');
    let c = clock_text(hour, minute);
    push_str(&mut s, c.as_str());
    proof {
        assert(s@ =~= weekly_reset_spec(month as nat, day as nat, hour as nat, minute as nat));
    }
    s
}

/// `HH:mm` of `ts` in `tz`.
pub fn format_clock(ts: jiff::Timestamp, tz: &jiff::tz::TimeZone) -> (s: String)
    ensures
        exists|h: nat, m: nat| h <= 23 && m <= 59 && s@ == clock_spec(h, m),
{
    let (_mo, _d, h, m) = zoned_fields(ts, tz);
    clock_text(h as u8, m as u8)
}

/// `M/d HH:mm` of `ts` in `tz`.
pub fn format_weekly_reset(ts: jiff::Timestamp, tz: &jiff::tz::TimeZone) -> (s: String)
    ensures
        exists|mo: nat, d: nat, h: nat, m: nat|
            1 <= mo <= 12 && 1 <= d <= 31 && h <= 23 && m <= 59 && s@ == weekly_reset_spec(
                mo,
                d,
                h,
                m,
            ),
{
    let (mo, d, h, m) = zoned_fields(ts, tz);
    weekly_reset_text(mo as u8, d as u8, h as u8, m as u8)
}


// ---------- laws ----------

/// Law: a bar always has exactly `width` cells; the filled part grows with
/// the percent, is empty at 0 % and full at 100 % (and above).
pub proof fn bar_shape(p: u8, q: u8, width: nat, filled: char, empty: char)
    ensures
        bar_spec(p, width, filled, empty).len() == width,
        p <= q ==> filled_cells(p, width) <= filled_cells(q, width),
        filled_cells(0, width) == 0,
        q >= 100 ==> filled_cells(q, width) == width,
{
    let pp: nat = if p > 100 { 100nat } else { p as nat };
    let qq: nat = if q > 100 { 100nat } else { q as nat };
    assert((pp / 10) * width / 10 <= width) by (nonlinear_arith)
        requires
            pp <= 100,
    {
        assert(pp / 10 <= 10);
        assert((pp / 10) * width <= 10 * width);
    }
    if p <= q {
        assert((pp / 10) * width / 10 <= (qq / 10) * width / 10) by (nonlinear_arith)
            requires
                pp <= qq,
        {
            assert(pp / 10 <= qq / 10);
            assert((pp / 10) * width <= (qq / 10) * width);
        }
    }
    if q >= 100 {
        assert(qq == 100);
        assert((qq / 10) * width / 10 == width) by (nonlinear_arith)
            requires
                qq == 100,
        ;
    }
    assert((0nat / 10) * width / 10 == 0) by (nonlinear_arith);
}

} // verus!
