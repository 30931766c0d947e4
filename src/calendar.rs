//! Calendar arithmetic on instants: civil dates of the proleptic Gregorian
//! calendar, held as (year, month, day), and steps by whole months.
use vstd::prelude::*;
use vstd::arithmetic::div_mod::{lemma_fundamental_div_mod, lemma_fundamental_div_mod_converse};
use crate::frame::TimeUnit;

verus! {

/// Day number (days since 1970-01-01) of a civil date.
pub open spec fn days_from_civil(y: int, m: int, d: int) -> int {
    let y2 = if m <= 2 { y - 1 } else { y };
    let era = y2 / 400;
    let yoe = y2 - era * 400;
    let mp = if m > 2 { m - 3 } else { m + 9 };
    let doy = (153 * mp + 2) / 5 + d - 1;
    let doe = yoe * 365 + yoe / 4 - yoe / 100 + doy;
    era * 146097 + doe - 719468
}

/// Civil date (year, month, day) of a day number.
pub open spec fn civil_from_days(z: int) -> (int, int, int) {
    let z2 = z + 719468;
    let era = z2 / 146097;
    let doe = z2 - era * 146097;
    let yoe = (doe - doe / 1460 + doe / 36524 - doe / 146096) / 365;
    let doy = doe - (365 * yoe + yoe / 4 - yoe / 100);
    let mp = (5 * doy + 2) / 153;
    let d = doy - (153 * mp + 2) / 5 + 1;
    let m = if mp < 10 { mp + 3 } else { mp - 9 };
    let y = yoe + era * 400 + if m <= 2 { 1int } else { 0int };
    (y, m, d)
}

pub open spec fn is_leap(y: int) -> bool {
    (y % 4 == 0 && y % 100 != 0) || y % 400 == 0
}

pub open spec fn days_in_month(y: int, m: int) -> int {
    if m == 2 {
        if is_leap(y) { 29 } else { 28 }
    } else if m == 4 || m == 6 || m == 9 || m == 11 {
        30
    } else {
        31
    }
}

/// The day `k` months after day `z`: same day of the month, clamped to the
/// last day of the target month.
pub open spec fn add_months_to_day(z: int, k: int) -> int {
    let (y, m, d) = civil_from_days(z);
    let idx = y * 12 + (m - 1) + k;
    let y2 = idx / 12;
    let m2 = idx % 12 + 1;
    let d2 = if d > days_in_month(y2, m2) { days_in_month(y2, m2) } else { d };
    days_from_civil(y2, m2, d2)
}

/// Units of `tu` in one day.
pub open spec fn per_day(tu: TimeUnit) -> int {
    match tu {
        TimeUnit::Milliseconds => 86_400_000,
        TimeUnit::Microseconds => 86_400_000_000,
        TimeUnit::Nanoseconds => 86_400_000_000_000,
    }
}

/// Instant `t` (in `tu`) moved by `months` calendar months, keeping the time
/// of day, and then by `units` of `tu`.
pub open spec fn shift_instant(t: int, months: int, units: int, tu: TimeUnit) -> int {
    let pd = per_day(tu);
    add_months_to_day(t / pd, months) * pd + t % pd + units
}

pub open spec fn fits_i64(v: int) -> bool {
    i64::MIN <= v <= i64::MAX
}

const BIG: i128 = 0x1_0000_0000_0000_0000_0000_0000;

fn floor_div(a: i128, b: i128) -> (r: i128)
    requires
        0 < b < 0x1_0000_0000_0000_0000,
        -BIG < a < BIG,
    ensures
        r == a / b,
{
    if a >= 0 {
        a / b
    } else {
        let p = -a - 1;
        let q = p / b;
        let rr = p % b;
        proof {
            lemma_fundamental_div_mod(p as int, b as int);
            assert(a == (-q - 1) * b + (b - 1 - rr)) by (nonlinear_arith)
                requires
                    p == b * q + rr,
                    a == -p - 1,
            ;
            lemma_fundamental_div_mod_converse(a as int, b as int, -q - 1, b - 1 - rr);
        }
        -q - 1
    }
}

fn days_from_civil_exec(y: i128, m: i128, d: i128) -> (r: i128)
    requires
        -0x10_0000_0000_0000 <= y <= 0x10_0000_0000_0000,
        -100 <= m <= 100,
        -100 <= d <= 100,
    ensures
        r == days_from_civil(y as int, m as int, d as int),
        -0x100_0000_0000_0000_0000 <= r <= 0x100_0000_0000_0000_0000,
{
    let y2 = if m <= 2 { y - 1 } else { y };
    let era = floor_div(y2, 400);
    let yoe = y2 - era * 400;
    let mp = if m > 2 { m - 3 } else { m + 9 };
    let doy = floor_div(153 * mp + 2, 5) + d - 1;
    let doe = yoe * 365 + floor_div(yoe, 4) - floor_div(yoe, 100) + doy;
    era * 146097 + doe - 719468
}

fn civil_from_days_exec(z: i128) -> (r: (i128, i128, i128))
    requires
        -0x4_0000_0000_0000 <= z <= 0x4_0000_0000_0000,
    ensures
        (r.0 as int, r.1 as int, r.2 as int) == civil_from_days(z as int),
        -0x1_0000_0000_0000 <= r.0 <= 0x1_0000_0000_0000,
        -100 <= r.1 <= 100,
        -100 <= r.2 <= 100,
{
    let z2 = z + 719468;
    let era = floor_div(z2, 146097);
    let doe = z2 - era * 146097;
    let yoe = floor_div(doe - floor_div(doe, 1460) + floor_div(doe, 36524) - floor_div(doe, 146096), 365);
    let doy = doe - (365 * yoe + floor_div(yoe, 4) - floor_div(yoe, 100));
    let mp = floor_div(5 * doy + 2, 153);
    let d = doy - floor_div(153 * mp + 2, 5) + 1;
    let m = if mp < 10 { mp + 3 } else { mp - 9 };
    let y = yoe + era * 400 + if m <= 2 { 1 } else { 0 };
    (y, m, d)
}

fn days_in_month_exec(y: i128, m: i128) -> (r: i128)
    requires
        -0x10_0000_0000_0000 <= y <= 0x10_0000_0000_0000,
    ensures
        r == days_in_month(y as int, m as int),
{
    if m == 2 {
        let leap = (y - 4 * floor_div(y, 4) == 0 && y - 100 * floor_div(y, 100) != 0) || y - 400
            * floor_div(y, 400) == 0;
        if leap { 29 } else { 28 }
    } else if m == 4 || m == 6 || m == 9 || m == 11 {
        30
    } else {
        31
    }
}

/// The instant `t` moved by `months` (at most 2^40) months and then by
/// `units`; `None` when the result does not fit in `i64`.
pub fn shift_instant_exec(t: i64, months: i128, units: i128, tu: TimeUnit) -> (r: Option<i64>)
    requires
        0 <= months <= 0x100_0000_0000,
        -0x1_0000_0000_0000_0000_0000_0000 <= units <= 0x1_0000_0000_0000_0000_0000_0000,
    ensures
        fits_i64(shift_instant(t as int, months as int, units as int, tu)) ==> r == Some(
            shift_instant(t as int, months as int, units as int, tu) as i64,
        ),
        !fits_i64(shift_instant(t as int, months as int, units as int, tu)) ==> r is None,
{
    let pd: i128 = match tu {
        TimeUnit::Milliseconds => 86_400_000,
        TimeUnit::Microseconds => 86_400_000_000,
        TimeUnit::Nanoseconds => 86_400_000_000_000,
    };
    let z = floor_div(t as i128, pd);
    let tod = t as i128 - z * pd;
    let (y, m, d) = civil_from_days_exec(z);
    let idx = y * 12 + (m - 1) + months;
    let y2 = floor_div(idx, 12);
    let m2 = idx - 12 * y2 + 1;
    let dim = days_in_month_exec(y2, m2);
    let d2 = if d > dim { dim } else { d };
    let nz = days_from_civil_exec(y2, m2, d2);
    let v = nz * pd + tod + units;
    if v < i64::MIN as i128 || v > i64::MAX as i128 {
        None
    } else {
        Some(v as i64)
    }
}

} // verus!
