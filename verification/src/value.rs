//! Field values ([`FieldValue`]), the civil-calendar arithmetic behind FileGDB dates, and
//! UUIDs.
//!
//! Floating-point values (`float32`, `float64` and the OLE Automation dates) are held as
//! their IEEE-754 bit patterns, exactly as they are stored in a row.
use vstd::prelude::*;
use crate::geometry::{GridGeometry, GeomView};

verus! {

/// Division rounding towards zero (Rust's `/` on signed integers), by a positive divisor.
pub open spec fn tdiv(a: int, b: int) -> int {
    if a >= 0 { a / b } else { -((-a) / b) }
}

/// Days since 1970-01-01 of a proleptic Gregorian date (Howard Hinnant's algorithm;
/// March-based years, 400-year eras).
pub open spec fn days_from_civil_spec(y: int, m: int, d: int) -> int {
    let y2 = if m <= 2 { y - 1 } else { y };
    let era = y2 / 400;
    let yoe = y2 % 400;
    let mp = if m > 2 { m - 3 } else { m + 9 };
    let doy = tdiv(153 * mp + 2, 5) + (d - 1);
    let doe = yoe * 365 + yoe / 4 - yoe / 100 + doy;
    era * 146097 + doe - 719468
}

/// The date `(year, month, day)` of a day count since 1970-01-01 (the inverse of
/// [`days_from_civil_spec`], Howard Hinnant's algorithm), before narrowing the year to `i32`.
pub open spec fn civil_from_days_spec(z: int) -> (int, int, int) {
    let z2 = z + 719468;
    let era = z2 / 146097;
    let doe = z2 % 146097;
    let yoe = (doe - doe / 1460 + doe / 36524 - doe / 146096) / 365;
    let y = yoe + era * 400;
    let doy = doe - (365 * yoe + yoe / 4 - yoe / 100);
    let mp = (5 * doy + 2) / 153;
    let d = doy - (153 * mp + 2) / 5 + 1;
    let m = if mp < 10 { mp + 3 } else { mp - 9 };
    (if m <= 2 { y + 1 } else { y }, m, d)
}

/// The year of an era (0 to 399) that [`civil_from_days_spec`] finds for a day of the era,
/// and the day of that (March-based) year, from 0 to 365.
proof fn lemma_year_of_era(doe: int)
    requires
        0 <= doe < 146097,
    ensures
        ({
            let yoe = (doe - doe / 1460 + doe / 36524 - doe / 146096) / 365;
            let doy = doe - (365 * yoe + yoe / 4 - yoe / 100);
            &&& 0 <= yoe <= 399
            &&& 0 <= doy <= 365
        }),
{
    let yoe = (doe - doe / 1460 + doe / 36524 - doe / 146096) / 365;
    assert(0 <= yoe <= 399) by (nonlinear_arith)
        requires
            0 <= doe < 146097,
            yoe == (doe - doe / 1460 + doe / 36524 - doe / 146096) / 365;
    assert(0 <= doe - (365 * yoe + yoe / 4 - yoe / 100) <= 365) by (nonlinear_arith)
        requires
            0 <= doe < 146097,
            yoe == (doe - doe / 1460 + doe / 36524 - doe / 146096) / 365;
}

/// Turning a day count into a date and back gives the day count: every day has its own
/// date.
#[verifier::spinoff_prover]
pub proof fn law_days_civil_roundtrip(z: int)
    ensures
        ({
            let (y, m, d) = civil_from_days_spec(z);
            days_from_civil_spec(y, m, d) == z
        }),
{
    let z2 = z + 719468;
    let era = z2 / 146097;
    let doe = z2 % 146097;
    lemma_year_of_era(doe);
    let yoe = (doe - doe / 1460 + doe / 36524 - doe / 146096) / 365;
    let doy = doe - (365 * yoe + yoe / 4 - yoe / 100);
    let mp = (5 * doy + 2) / 153;
    assert(0 <= mp <= 11);
    let d = doy - (153 * mp + 2) / 5 + 1;
    let m = if mp < 10 { mp + 3 } else { mp - 9 };
    let y = yoe + era * 400;
    let (yy, mm, dd) = civil_from_days_spec(z);
    assert(mm == m && dd == d);
    let y2 = if mm <= 2 { yy - 1 } else { yy };
    assert(y2 == y);
    assert(y2 / 400 == era && y2 % 400 == yoe) by {
        vstd::arithmetic::div_mod::lemma_fundamental_div_mod_converse(y2, 400, era, yoe);
    }
    let mp2 = if mm > 2 { mm - 3 } else { mm + 9 };
    assert(mp2 == mp);
    assert(tdiv(153 * mp2 + 2, 5) == (153 * mp + 2) / 5);
    assert(z2 == era * 146097 + doe) by {
        vstd::arithmetic::div_mod::lemma_fundamental_div_mod(z2, 146097);
    }
}

/// Whether a year of the proleptic Gregorian calendar is a leap year.
pub open spec fn is_leap(y: int) -> bool {
    (y % 4 == 0 && y % 100 != 0) || y % 400 == 0
}

/// The number of days of month `m` of year `y`.
pub open spec fn days_in_month(y: int, m: int) -> int {
    if m == 2 {
        if is_leap(y) { 29 } else { 28 }
    } else if m == 4 || m == 6 || m == 9 || m == 11 {
        30
    } else {
        31
    }
}

/// A date of the proleptic Gregorian calendar: a month from 1 to 12 and a day of it.
pub open spec fn valid_date(y: int, m: int, d: int) -> bool {
    1 <= m <= 12 && 1 <= d <= days_in_month(y, m)
}

/// The day of an era that a year of the era and a day of that year make is read back as
/// them.
proof fn lemma_era_day_inverse(yoe: int, doy: int)
    requires
        0 <= yoe < 400,
        0 <= doy < 365 + (if is_leap(yoe + 1) { 1int } else { 0int }),
    ensures
        ({
            let doe = yoe * 365 + yoe / 4 - yoe / 100 + doy;
            &&& 0 <= doe < 146097
            &&& (doe - doe / 1460 + doe / 36524 - doe / 146096) / 365 == yoe
        }),
{
    let doe = yoe * 365 + yoe / 4 - yoe / 100 + doy;
    assert(0 <= doe < 146097) by (nonlinear_arith)
        requires
            0 <= yoe < 400,
            0 <= doy < 366,
            doe == yoe * 365 + yoe / 4 - yoe / 100 + doy;
    assert((doe - doe / 1460 + doe / 36524 - doe / 146096) / 365 == yoe) by (nonlinear_arith)
        requires
            0 <= yoe < 400,
            0 <= doy,
            doy < 365 + (if ((yoe + 1) % 4 == 0 && (yoe + 1) % 100 != 0) || (yoe + 1) % 400 == 0 { 1int } else { 0int }),
            doe == yoe * 365 + yoe / 4 - yoe / 100 + doy;
}

/// Leap years repeat every 400 years.
proof fn lemma_leap_era(era: int, k: int)
    ensures
        is_leap(era * 400 + k) == is_leap(k),
{
    assert((era * 400 + k) % 4 == k % 4 && (era * 400 + k) % 100 == k % 100 && (era * 400 + k) % 400 == k % 400) by {
        vstd::arithmetic::div_mod::lemma_mod_multiples_vanish(era * 100, k, 4);
        vstd::arithmetic::div_mod::lemma_mod_multiples_vanish(era * 4, k, 100);
        vstd::arithmetic::div_mod::lemma_mod_multiples_vanish(era, k, 400);
        assert(era * 100 * 4 == era * 400) by (nonlinear_arith);
        assert(era * 4 * 100 == era * 400) by (nonlinear_arith);
    }
}

/// A day of a (March-based) month is read back as its month and day.
proof fn lemma_month_day_inverse(mp: int, dd: int, len: int)
    requires
        0 <= mp <= 11,
        0 <= dd < len,
        len == (if mp == 11 { 29int } else if mp == 1 || mp == 3 || mp == 6 || mp == 8 { 30int } else { 31int }),
    ensures
        ({
            let doy = (153 * mp + 2) / 5 + dd;
            &&& (5 * doy + 2) / 153 == mp
            &&& doy - (153 * mp + 2) / 5 == dd
        }),
{
}

/// Turning a date into a day count and back gives the date.
#[verifier::spinoff_prover]
pub proof fn law_civil_days_roundtrip(y: int, m: int, d: int)
    requires
        valid_date(y, m, d),
    ensures
        civil_from_days_spec(days_from_civil_spec(y, m, d)) == (y, m, d),
{
    let y2 = if m <= 2 { y - 1 } else { y };
    let era = y2 / 400;
    let yoe = y2 % 400;
    let mp = if m > 2 { m - 3 } else { m + 9 };
    assert(tdiv(153 * mp + 2, 5) == (153 * mp + 2) / 5);
    let doy = (153 * mp + 2) / 5 + (d - 1);
    let len = if mp == 11 { 29int } else if mp == 1 || mp == 3 || mp == 6 || mp == 8 { 30int } else { 31int };
    lemma_month_day_inverse(mp, d - 1, len);
    assert(y2 == era * 400 + yoe) by {
        vstd::arithmetic::div_mod::lemma_fundamental_div_mod(y2, 400);
    }
    if m == 2 {
        lemma_leap_era(era, yoe + 1);
        assert(y == era * 400 + (yoe + 1));
    }
    assert(0 <= doy < 365 + (if is_leap(yoe + 1) { 1int } else { 0int }));
    lemma_era_day_inverse(yoe, doy);
    let doe = yoe * 365 + yoe / 4 - yoe / 100 + doy;
    let z = days_from_civil_spec(y, m, d);
    assert(z == era * 146097 + doe - 719468);
    let z2 = z + 719468;
    assert(z2 / 146097 == era && z2 % 146097 == doe) by {
        vstd::arithmetic::div_mod::lemma_fundamental_div_mod_converse(z2, 146097, era, doe);
    }
}

/// A March-based year of an era that ends a day late (a day of the year numbered 365) is
/// followed by a leap year: the year after it holds the extra day.
proof fn lemma_long_year_leap(doe: int)
    requires
        0 <= doe < 146097,
        ({
            let yoe = (doe - doe / 1460 + doe / 36524 - doe / 146096) / 365;
            doe - (365 * yoe + yoe / 4 - yoe / 100) == 365
        }),
    ensures
        is_leap((doe - doe / 1460 + doe / 36524 - doe / 146096) / 365 + 1),
{
    let yoe = (doe - doe / 1460 + doe / 36524 - doe / 146096) / 365;
    lemma_year_of_era(doe);
    let k = yoe + 1;
    if !is_leap(k) {
        assert(k < 400);
        assert((k * 365 + k / 4 - k / 100) == (365 * yoe + yoe / 4 - yoe / 100) + 365);
        lemma_era_day_inverse(k, 0);
        assert(doe == k * 365 + k / 4 - k / 100 + 0);
        assert(false);
    }
}

/// The date of every day count is a date of the calendar: a month from 1 to 12 and a day
/// that the month has.
#[verifier::spinoff_prover]
pub proof fn law_civil_from_days_valid(z: int)
    ensures
        ({
            let (y, m, d) = civil_from_days_spec(z);
            valid_date(y, m, d)
        }),
{
    let z2 = z + 719468;
    let era = z2 / 146097;
    let doe = z2 % 146097;
    lemma_year_of_era(doe);
    let yoe = (doe - doe / 1460 + doe / 36524 - doe / 146096) / 365;
    let doy = doe - (365 * yoe + yoe / 4 - yoe / 100);
    let mp = (5 * doy + 2) / 153;
    assert(0 <= mp <= 11);
    assert(153 * mp <= 5 * doy + 2 < 153 * mp + 153);
    let d = doy - (153 * mp + 2) / 5 + 1;
    let m = if mp < 10 { mp + 3 } else { mp - 9 };
    let y = yoe + era * 400;
    let (yy, mm, dd) = civil_from_days_spec(z);
    assert(mm == m && dd == d);
    assert(1 <= d);
    if mp == 11 {
        assert(yy == era * 400 + (yoe + 1));
        lemma_leap_era(era, yoe + 1);
        if d == 29 {
            lemma_long_year_leap(doe);
        }
    }
    assert(d <= days_in_month(yy, mm));
}

/// Floor division by a positive `i64` divisor, computed without overflow for the ranges used.
fn floor_div(a: i64, b: i64) -> (r: i64)
    requires
        b > 0,
        a > i64::MIN + b,
    ensures
        r == a as int / b as int,
{
    if a >= 0 {
        a / b
    } else {
        let q = (b - 1 - a) / b;
        proof {
            let qq = (b as int - 1 - a as int) / (b as int);
            let rr = (b as int - 1 - a as int) % (b as int);
            vstd::arithmetic::div_mod::lemma_fundamental_div_mod(b as int - 1 - a as int, b as int);
            assert(a as int == (-qq) * (b as int) + (b as int - 1 - rr)) by (nonlinear_arith)
                requires
                    b as int - 1 - a as int == (b as int) * qq + rr;
            vstd::arithmetic::div_mod::lemma_fundamental_div_mod_converse(a as int, b as int, -qq, b as int - 1 - rr);
        }
        -q
    }
}

/// Truncating division by a positive divisor.
fn trunc_div(a: i64, b: i64) -> (r: i64)
    requires
        b > 0,
        a > i64::MIN,
    ensures
        r == tdiv(a as int, b as int),
{
    if a >= 0 { a / b } else { -((-a) / b) }
}

/// Days since 1970-01-01 of a proleptic Gregorian date (Howard Hinnant's algorithm).
pub fn days_from_civil(y: i32, m: i32, d: i32) -> (r: i64)
    requires
        m <= 2 ==> y > i32::MIN,
        (if m <= 2 { y - 1 } else { y as int }) >= i32::MIN + 399,
        i32::MIN <= 153 * (if m > 2 { m - 3 } else { m + 9 }) + 2 <= i32::MAX,
        d > i32::MIN,
    ensures
        r == days_from_civil_spec(y as int, m as int, d as int),
{
    let y2: i64 = if m <= 2 { y as i64 - 1 } else { y as i64 };
    let era = floor_div(y2, 400);
    let yoe = y2 - era * 400;
    let mp: i64 = if m > 2 { m as i64 - 3 } else { m as i64 + 9 };
    let doy = trunc_div(153 * mp + 2, 5) + (d as i64 - 1);
    proof {
        vstd::arithmetic::div_mod::lemma_fundamental_div_mod(y2 as int, 400);
        assert(0 <= yoe < 400);
    }
    let doe = yoe * 365 + yoe / 4 - yoe / 100 + doy;
    era * 146097 + doe - 719468
}

/// The date of a day count since 1970-01-01 (Howard Hinnant's algorithm); the year is
/// narrowed to `i32` as the `as` cast does.
pub fn civil_from_days(z: i64) -> (r: (i32, u32, u32))
    requires
        z <= i64::MAX - 719468,
        z + 719468 > i64::MIN + 146097,
    ensures
        ({
            let (y, m, d) = civil_from_days_spec(z as int);
            &&& r == (y as i32, m as u32, d as u32)
            &&& valid_date(y, m, d)
        }),
{
    proof { law_civil_from_days_valid(z as int); }
    let z2 = z + 719468;
    let era = floor_div(z2, 146097);
    let doe = z2 - era * 146097;
    proof {
        vstd::arithmetic::div_mod::lemma_fundamental_div_mod(z2 as int, 146097);
        assert(0 <= doe < 146097);
    }
    let yoe = (doe - doe / 1460 + doe / 36524 - doe / 146096) / 365;
    let y = yoe + era * 400;
    let doy = doe - (365 * yoe + yoe / 4 - yoe / 100);
    proof {
        assert(0 <= yoe <= 400);
        assert(doy >= 0) by (nonlinear_arith)
            requires
                0 <= doe < 146097,
                yoe == (doe - doe / 1460 + doe / 36524 - doe / 146096) / 365,
                doy == doe - (365 * yoe + yoe / 4 - yoe / 100);
        assert(doy < 400) by (nonlinear_arith)
            requires
                0 <= doe < 146097,
                yoe == (doe - doe / 1460 + doe / 36524 - doe / 146096) / 365,
                doy == doe - (365 * yoe + yoe / 4 - yoe / 100);
    }
    let mp = (5 * doy + 2) / 153;
    let d = doy - (153 * mp + 2) / 5 + 1;
    let m = if mp < 10 { mp + 3 } else { mp - 9 };
    let y2 = if m <= 2 { y + 1 } else { y };
    (y2 as i32, m as u32, d as u32)
}

/// Days since 1970-01-01 of the OLE Automation epoch, 1899-12-30.
pub fn ole_epoch_days() -> (r: i64)
    ensures
        r == days_from_civil_spec(1899, 12, 30),
        r == -25569,
{
    let r = days_from_civil(1899, 12, 30);
    assert(days_from_civil_spec(1899, 12, 30) == -25569);
    r
}

// ---------------------------------------------------------------------------
// Decimal text
// ---------------------------------------------------------------------------

/// The decimal digit character of `d < 10`.
pub open spec fn digit_char(d: nat) -> char {
    if d == 0 { '0' } else if d == 1 { '1' } else if d == 2 { '2' } else if d == 3 { '3' }
    else if d == 4 { '4' } else if d == 5 { '5' } else if d == 6 { '6' } else if d == 7 { '7' }
    else if d == 8 { '8' } else { '9' }
}

/// The decimal digits of `n` (no leading zeros; `0` is one digit).
pub open spec fn decimal(n: nat) -> Seq<char>
    decreases n,
{
    if n < 10 { seq![digit_char(n)] } else { decimal(n / 10).push(digit_char(n % 10)) }
}

/// The decimal digits of `n`, padded with leading zeros to at least `w` characters.
pub open spec fn zero_padded(n: nat, w: nat) -> Seq<char> {
    let ds = decimal(n);
    if ds.len() >= w { ds } else { Seq::new((w - ds.len()) as nat, |i: int| '0') + ds }
}

/// A signed integer formatted with `{:0w$}`: the sign counts towards the width.
pub open spec fn zero_padded_signed(v: int, w: nat) -> Seq<char> {
    if v < 0 { seq!['-'] + zero_padded((-v) as nat, (w - 1) as nat) } else { zero_padded(v as nat, w) }
}

/// Appends the digit `d`.
fn push_digit(s: &mut String, d: u64)
    requires
        d < 10,
    ensures
        final(s)@ == old(s)@ + seq![digit_char(d as nat)],
{
    if d == 0 { proof { reveal_strlit("0"); } s.append("0"); }
    else if d == 1 { proof { reveal_strlit("1"); } s.append("1"); }
    else if d == 2 { proof { reveal_strlit("2"); } s.append("2"); }
    else if d == 3 { proof { reveal_strlit("3"); } s.append("3"); }
    else if d == 4 { proof { reveal_strlit("4"); } s.append("4"); }
    else if d == 5 { proof { reveal_strlit("5"); } s.append("5"); }
    else if d == 6 { proof { reveal_strlit("6"); } s.append("6"); }
    else if d == 7 { proof { reveal_strlit("7"); } s.append("7"); }
    else if d == 8 { proof { reveal_strlit("8"); } s.append("8"); }
    else { proof { reveal_strlit("9"); } s.append("9"); }
}

/// Appends `n` in decimal, padded with zeros to at least `w` characters.
pub fn push_zero_padded(s: &mut String, n: u64, w: usize)
    ensures
        final(s)@ == old(s)@ + zero_padded(n as nat, w as nat),
{
    // Collect the digits, least significant first.
    let mut rev: Vec<u64> = Vec::new();
    let mut rem = n;
    loop
        invariant_except_break
            decimal(n as nat) == decimal(rem as nat) + Seq::new(rev@.len(), |i: int| digit_char(rev@[rev@.len() - 1 - i] as nat)),
        invariant
            forall|i: int| 0 <= i < rev@.len() ==> rev@[i] < 10,
        ensures
            decimal(n as nat) =~= Seq::new(rev@.len(), |i: int| digit_char(rev@[rev@.len() - 1 - i] as nat)),
        decreases rem,
    {
        let ghost old_rev = rev@;
        let d = rem % 10;
        rev.push(d);
        if rem < 10 {
            proof {
                assert(decimal(rem as nat) == seq![digit_char(d as nat)]);
                assert(decimal(n as nat) =~= Seq::new(rev@.len(), |i: int| digit_char(rev@[rev@.len() - 1 - i] as nat)));
            }
            break;
        }
        proof {
            assert(decimal(rem as nat) == decimal((rem / 10) as nat).push(digit_char(d as nat)));
            assert(decimal((rem / 10) as nat).push(digit_char(d as nat)) + Seq::new(old_rev.len(), |i: int| digit_char(old_rev[old_rev.len() - 1 - i] as nat))
                =~= decimal((rem / 10) as nat) + Seq::new(rev@.len(), |i: int| digit_char(rev@[rev@.len() - 1 - i] as nat)));
        }
        rem = rem / 10;
    }
    let ghost ds = decimal(n as nat);
    let ghost start = s@;
    let mut pad: usize = 0;
    if rev.len() < w {
        pad = w - rev.len();
    }
    let mut i: usize = 0;
    while i < pad
        invariant
            i <= pad,
            s@ == start + Seq::new(i as nat, |j: int| '0'),
        decreases pad - i,
    {
        proof { reveal_strlit("0"); }
        s.append("0");
        i = i + 1;
        assert(s@ =~= start + Seq::new(i as nat, |j: int| '0'));
    }
    let ghost mid = s@;
    let mut j: usize = rev.len();
    while j > 0
        invariant
            j <= rev@.len(),
            forall|i: int| 0 <= i < rev@.len() ==> rev@[i] < 10,
            s@ == mid + ds.subrange(0, (rev@.len() - j) as int),
            ds =~= Seq::new(rev@.len(), |i: int| digit_char(rev@[rev@.len() - 1 - i] as nat)),
        decreases j,
    {
        push_digit(s, rev[j - 1]);
        j = j - 1;
        assert(s@ =~= mid + ds.subrange(0, (rev@.len() - j) as int));
    }
    assert(ds.subrange(0, ds.len() as int) == ds);
    assert(s@ =~= old(s)@ + zero_padded(n as nat, w as nat));
}

/// Appends `n` in decimal.
pub fn push_decimal(s: &mut String, n: u64)
    ensures
        final(s)@ == old(s)@ + decimal(n as nat),
{
    push_zero_padded(s, n, 0);
}

/// Appends a signed integer formatted with `{:0w$}` (the sign counts towards the width).
pub fn push_zero_padded_signed(s: &mut String, v: i64, w: usize)
    requires
        w >= 1,
    ensures
        final(s)@ == old(s)@ + zero_padded_signed(v as int, w as nat),
{
    if v < 0 {
        proof { reveal_strlit("-"); }
        s.append("-");
        let mag = (-(v as i128)) as u64;
        push_zero_padded(s, mag, w - 1);
        assert(s@ =~= old(s)@ + zero_padded_signed(v as int, w as nat));
    } else {
        push_zero_padded(s, v as u64, w);
    }
}

/// A signed integer in decimal, with a leading `-` when negative.
pub open spec fn signed_decimal(v: int) -> Seq<char> {
    if v < 0 { seq!['-'] + decimal((-v) as nat) } else { decimal(v as nat) }
}

/// Appends `v` in decimal, with a leading `-` when negative.
pub fn push_signed(s: &mut String, v: i64)
    ensures
        final(s)@ == old(s)@ + signed_decimal(v as int),
{
    push_zero_padded_signed(s, v, 1);
    proof {
        let n = if v < 0 { (-(v as int)) as nat } else { v as nat };
        if !(n < 10) {
            assert(decimal(n).len() >= 1);
        }
    }
}


// ---------------------------------------------------------------------------
// Values
// ---------------------------------------------------------------------------

/// A date and time in civil (proleptic Gregorian) fields.
#[derive(Debug, Clone, Copy, PartialEq, Eq)]
pub struct DateTime {
    pub year: i32,
    pub month: u32,
    pub day: u32,
    pub hour: u32,
    pub minute: u32,
    pub second: u32,
    pub micros: u32,
}

/// The ISO-style text of a date and time: `YYYY-MM-DD hh:mm:ss`, followed by `.uuuuuu`
/// when the microseconds are not zero.
pub open spec fn iso_text(dt: DateTime) -> Seq<char> {
    zero_padded_signed(dt.year as int, 4) + seq!['-'] + zero_padded(dt.month as nat, 2) + seq!['-']
        + zero_padded(dt.day as nat, 2) + seq![' '] + zero_padded(dt.hour as nat, 2) + seq![':']
        + zero_padded(dt.minute as nat, 2) + seq![':'] + zero_padded(dt.second as nat, 2)
        + (if dt.micros == 0 { Seq::empty() } else { seq!['.'] + zero_padded(dt.micros as nat, 6) })
}

/// Microseconds in a day.
pub const MICROS_PER_DAY: i64 = 86_400_000_000;

/// The date and time `t` microseconds after the OLE Automation epoch (1899-12-30 00:00):
/// the day by floor division, then the hour, minute, second and microsecond of that day.
pub open spec fn date_time_of_micros(t: int) -> DateTime {
    let day = t / 86_400_000_000;
    let us = t % 86_400_000_000;
    let (y, m, d) = civil_from_days_spec(-25569 + day);
    DateTime {
        year: y as i32,
        month: m as u32,
        day: d as u32,
        hour: (us / 3_600_000_000) as u32,
        minute: ((us % 3_600_000_000) / 60_000_000) as u32,
        second: ((us % 60_000_000) / 1_000_000) as u32,
        micros: (us % 1_000_000) as u32,
    }
}

/// The microseconds after the OLE Automation epoch of a date and time.
pub open spec fn micros_of_date_time(dt: DateTime) -> int {
    (days_from_civil_spec(dt.year as int, dt.month as int, dt.day as int) + 25569) * 86_400_000_000
        + dt.hour * 3_600_000_000 + dt.minute * 60_000_000 + dt.second * 1_000_000 + dt.micros
}

/// A date and time of the calendar: a valid date, and a time of day.
pub open spec fn valid_date_time(dt: DateTime) -> bool {
    &&& valid_date(dt.year as int, dt.month as int, dt.day as int)
    &&& dt.hour < 24 && dt.minute < 60 && dt.second < 60 && dt.micros < 1_000_000
}

/// A date and time turned into microseconds after the OLE Automation epoch and back is
/// the same date and time.
#[verifier::spinoff_prover]
#[verifier::rlimit(40)]
pub proof fn law_date_time_micros_roundtrip(dt: DateTime)
    requires
        valid_date_time(dt),
    ensures
        date_time_of_micros(micros_of_date_time(dt)) == dt,
{
    let days = days_from_civil_spec(dt.year as int, dt.month as int, dt.day as int);
    let us = dt.hour * 3_600_000_000 + dt.minute * 60_000_000 + dt.second * 1_000_000 + dt.micros;
    assert(0 <= us < 86_400_000_000);
    let t = micros_of_date_time(dt);
    assert(t == (days + 25569) * 86_400_000_000 + us);
    vstd::arithmetic::div_mod::lemma_fundamental_div_mod_converse(t, 86_400_000_000, days + 25569, us);
    law_civil_days_roundtrip(dt.year as int, dt.month as int, dt.day as int);
    assert(-25569 + (days + 25569) == days);
    assert(us / 3_600_000_000 == dt.hour as int);
    assert((us % 3_600_000_000) / 60_000_000 == dt.minute as int);
    assert((us % 60_000_000) / 1_000_000 == dt.second as int);
    assert(us % 1_000_000 == dt.micros as int);
}

impl DateTime {
    /// The date and time `total_micros` microseconds after the OLE Automation epoch
    /// (the integer part of `DateTime::from_ole`, after the float days are scaled and
    /// rounded to microseconds).
    pub fn from_total_micros(total_micros: i64) -> (dt: DateTime)
        ensures
            dt == date_time_of_micros(total_micros as int),
    {
        let (day_i, rem) = if total_micros >= 0 {
            (total_micros / MICROS_PER_DAY, total_micros % MICROS_PER_DAY)
        } else {
            let u = -(total_micros + 1);
            let q = u / MICROS_PER_DAY;
            let r = u % MICROS_PER_DAY;
            proof {
                vstd::arithmetic::div_mod::lemma_fundamental_div_mod(u as int, 86_400_000_000);
                assert(total_micros == (-q - 1) * 86_400_000_000 + (86_400_000_000 - r - 1));
                vstd::arithmetic::div_mod::lemma_fundamental_div_mod_converse(total_micros as int, 86_400_000_000,
                    -q - 1, 86_400_000_000 - r - 1);
            }
            (-q - 1, MICROS_PER_DAY - r - 1)
        };
        assert(day_i == total_micros as int / 86_400_000_000 && rem == total_micros as int % 86_400_000_000);
        let micro_in_day = rem as u64;
        let (y, m, d) = civil_from_days(ole_epoch_days() + day_i);
        let hour = (micro_in_day / 3_600_000_000) as u32;
        let minute = ((micro_in_day % 3_600_000_000) / 60_000_000) as u32;
        let second = ((micro_in_day % 60_000_000) / 1_000_000) as u32;
        let micros = (micro_in_day % 1_000_000) as u32;
        DateTime { year: y, month: m, day: d, hour, minute, second, micros }
    }

    /// The microseconds after the OLE Automation epoch (the integer part of
    /// `DateTime::to_ole`, before the division into float days). Each step of the sum
    /// must fit in an `i64`.
    pub fn total_micros(&self) -> (t: i64)
        requires
            self.month <= 2 ==> self.year > i32::MIN,
            (if self.month <= 2 { self.year - 1 } else { self.year as int }) >= i32::MIN + 399,
            self.month as int * 153 <= i32::MAX,
            self.day <= i32::MAX,
            self.hour * 3_600_000_000 <= i64::MAX,
            i64::MIN <= (days_from_civil_spec(self.year as int, self.month as int, self.day as int) + 25569) * 86_400_000_000 <= i64::MAX,
            i64::MIN <= micros_of_date_time(*self) <= i64::MAX,
            (days_from_civil_spec(self.year as int, self.month as int, self.day as int) + 25569) * 86_400_000_000
                + self.hour * 3_600_000_000 <= i64::MAX,
            (days_from_civil_spec(self.year as int, self.month as int, self.day as int) + 25569) * 86_400_000_000
                + self.hour * 3_600_000_000 + self.minute * 60_000_000 <= i64::MAX,
            (days_from_civil_spec(self.year as int, self.month as int, self.day as int) + 25569) * 86_400_000_000
                + self.hour * 3_600_000_000 + self.minute * 60_000_000 + self.second * 1_000_000 <= i64::MAX,
        ensures
            t == micros_of_date_time(*self),
    {
        let days = days_from_civil(self.year, self.month as i32, self.day as i32);
        let day_i = days - ole_epoch_days();
        let a = day_i * MICROS_PER_DAY;
        let h = self.hour as i64 * 3_600_000_000;
        let mi = self.minute as i64 * 60_000_000;
        let s = self.second as i64 * 1_000_000;
        a + h + mi + s + self.micros as i64
    }

    /// Formats the date and time (ISO style).
    pub fn to_string_iso(&self) -> (s: String)
        ensures
            s@ == iso_text(*self),
    {
        let mut s = String::new();
        proof {
            reveal_strlit("-");
            reveal_strlit(" ");
            reveal_strlit(":");
            reveal_strlit(".");
        }
        push_zero_padded_signed(&mut s, self.year as i64, 4);
        s.append("-");
        push_zero_padded(&mut s, self.month as u64, 2);
        s.append("-");
        push_zero_padded(&mut s, self.day as u64, 2);
        s.append(" ");
        push_zero_padded(&mut s, self.hour as u64, 2);
        s.append(":");
        push_zero_padded(&mut s, self.minute as u64, 2);
        s.append(":");
        push_zero_padded(&mut s, self.second as u64, 2);
        if self.micros != 0 {
            s.append(".");
            push_zero_padded(&mut s, self.micros as u64, 6);
        }
        assert(s@ =~= iso_text(*self));
        s
    }
}

/// A 16-byte UUID.
#[derive(Debug, Clone, Copy, PartialEq, Eq)]
pub struct Uuid(pub [u8; 16]);

/// The lower-case hexadecimal digit of `d < 16`.
pub open spec fn hex_char(d: nat) -> char {
    if d < 10 { digit_char(d) } else if d == 10 { 'a' } else if d == 11 { 'b' } else if d == 12 { 'c' }
    else if d == 13 { 'd' } else if d == 14 { 'e' } else { 'f' }
}

/// The two hexadecimal digits of a byte, high digit first.
pub open spec fn byte_hex(x: u8) -> Seq<char> {
    seq![hex_char((x / 16) as nat), hex_char((x % 16) as nat)]
}

/// The text of the first `i` bytes of a UUID: two hexadecimal digits per byte, with a dash
/// before bytes 4, 6, 8 and 10.
pub open spec fn uuid_text_upto(b: Seq<u8>, i: nat) -> Seq<char>
    decreases i,
{
    if i == 0 {
        Seq::empty()
    } else {
        let k = (i - 1) as nat;
        uuid_text_upto(b, k) + (if k == 4 || k == 6 || k == 8 || k == 10 { seq!['-'] } else { Seq::empty() })
            + byte_hex(b[k as int])
    }
}

/// The text of a UUID: `xxxxxxxx-xxxx-xxxx-xxxx-xxxxxxxxxxxx`, the bytes in order, in
/// lower-case hexadecimal.
pub open spec fn uuid_text(b: Seq<u8>) -> Seq<char> {
    uuid_text_upto(b, 16)
}

/// Appends the hexadecimal digit `d`.
fn push_hex_digit(s: &mut String, d: u8)
    requires
        d < 16,
    ensures
        final(s)@ == old(s)@ + seq![hex_char(d as nat)],
{
    if d < 10 {
        push_digit(s, d as u64);
    } else if d == 10 { proof { reveal_strlit("a"); } s.append("a"); }
    else if d == 11 { proof { reveal_strlit("b"); } s.append("b"); }
    else if d == 12 { proof { reveal_strlit("c"); } s.append("c"); }
    else if d == 13 { proof { reveal_strlit("d"); } s.append("d"); }
    else if d == 14 { proof { reveal_strlit("e"); } s.append("e"); }
    else { proof { reveal_strlit("f"); } s.append("f"); }
}

impl Uuid {
    /// The UUID with these bytes.
    pub fn from_bytes(b: [u8; 16]) -> (u: Uuid)
        ensures
            u.0@ == b@,
    {
        Uuid(b)
    }

    /// The text of the UUID (see [`uuid_text`]).
    pub fn to_string(&self) -> (s: String)
        ensures
            s@ == uuid_text(self.0@),
    {
        let mut s = String::new();
        let mut i: usize = 0;
        while i < 16
            invariant
                i <= 16,
                s@ == uuid_text_upto(self.0@, i as nat),
            decreases 16 - i,
        {
            if i == 4 || i == 6 || i == 8 || i == 10 {
                proof { reveal_strlit("-"); }
                s.append("-");
            }
            let x = self.0[i];
            push_hex_digit(&mut s, x / 16);
            push_hex_digit(&mut s, x % 16);
            assert(s@ =~= uuid_text_upto(self.0@, (i + 1) as nat));
            i = i + 1;
        }
        s
    }
}

/// The value of one field.
#[derive(Debug, PartialEq)]
pub enum FieldValue {
    /// int16 (field type 0).
    Int16(i16),
    /// int32 (field type 1).
    Int32(i32),
    /// int64 (field type 13).
    Int64(i64),
    /// float32 (field type 2), as its IEEE-754 bit pattern.
    Float(u32),
    /// float64 (field type 3), as its IEEE-754 bit pattern.
    Double(u64),
    /// Text (field type 4).
    Text(String),
    /// Date and time (field types 5, 14, 15): the OLE Automation date (days since
    /// 1899-12-30, a float64) as its IEEE-754 bit pattern.
    DateTime(u64),
    /// Object ID (field type 6).
    ObjectId(u64),
    /// Geometry (field type 7), in grid units.
    Geometry(GridGeometry),
    /// Binary data (field types 8 and 9).
    Binary(Vec<u8>),
    /// UUID (field types 10 and 11).
    Uuid(Uuid),
    /// XML (field type 12).
    Xml(String),
    /// No value (nullable fields).
    Null,
}

/// A copy of a byte vector.
fn copy_bytes(b: &Vec<u8>) -> (out: Vec<u8>)
    ensures
        out@ == b@,
{
    let mut out: Vec<u8> = Vec::new();
    let mut i: usize = 0;
    while i < b.len()
        invariant
            i <= b@.len(),
            out@ == b@.take(i as int),
        decreases b@.len() - i,
    {
        out.push(b[i]);
        assert(out@ =~= b@.take(i + 1));
        i = i + 1;
    }
    assert(b@.take(i as int) =~= b@);
    out
}

impl Clone for FieldValue {
    fn clone(&self) -> (c: Self)
        ensures
            c@ == self@,
    {
        match self {
            FieldValue::Int16(x) => FieldValue::Int16(*x),
            FieldValue::Int32(x) => FieldValue::Int32(*x),
            FieldValue::Int64(x) => FieldValue::Int64(*x),
            FieldValue::Float(x) => FieldValue::Float(*x),
            FieldValue::Double(x) => FieldValue::Double(*x),
            FieldValue::Text(s) => FieldValue::Text(s.as_str().to_string()),
            FieldValue::DateTime(x) => FieldValue::DateTime(*x),
            FieldValue::ObjectId(x) => FieldValue::ObjectId(*x),
            FieldValue::Geometry(g) => FieldValue::Geometry(g.clone()),
            FieldValue::Binary(b) => FieldValue::Binary(copy_bytes(b)),
            FieldValue::Uuid(u) => FieldValue::Uuid(*u),
            FieldValue::Xml(s) => FieldValue::Xml(s.as_str().to_string()),
            FieldValue::Null => FieldValue::Null,
        }
    }
}

impl FieldValue {
    /// A text value.
    pub fn text(s: &str) -> (v: FieldValue)
        ensures
            v matches FieldValue::Text(t) && t@ == s@,
    {
        FieldValue::Text(s.to_string())
    }
}

/// The mathematical value of a field value.
pub enum ValueView {
    Int16(i16),
    Int32(i32),
    Int64(i64),
    Float(u32),
    Double(u64),
    Text(Seq<char>),
    DateTime(u64),
    ObjectId(u64),
    Geometry(GeomView),
    Binary(Seq<u8>),
    Uuid(Seq<u8>),
    Xml(Seq<char>),
    Null,
}

impl View for FieldValue {
    type V = ValueView;

    open spec fn view(&self) -> ValueView {
        match self {
            FieldValue::Int16(x) => ValueView::Int16(*x),
            FieldValue::Int32(x) => ValueView::Int32(*x),
            FieldValue::Int64(x) => ValueView::Int64(*x),
            FieldValue::Float(x) => ValueView::Float(*x),
            FieldValue::Double(x) => ValueView::Double(*x),
            FieldValue::Text(s) => ValueView::Text(s@),
            FieldValue::DateTime(x) => ValueView::DateTime(*x),
            FieldValue::ObjectId(x) => ValueView::ObjectId(*x),
            FieldValue::Geometry(g) => ValueView::Geometry(g@),
            FieldValue::Binary(b) => ValueView::Binary(b@),
            FieldValue::Uuid(u) => ValueView::Uuid(u.0@),
            FieldValue::Xml(s) => ValueView::Xml(s@),
            FieldValue::Null => ValueView::Null,
        }
    }
}

/// The views of a row.
pub open spec fn row_view(row: Seq<FieldValue>) -> Seq<ValueView> {
    row.map_values(|v: FieldValue| v@)
}

} // verus!
