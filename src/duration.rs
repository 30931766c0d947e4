//! Step descriptions such as "1d", "2h", "1h30m" or "1mo15d": one or more
//! terms of a decimal count followed by a unit. Calendar terms (months and
//! years) and fixed-length terms are added up separately.
use vstd::prelude::*;
use vstd::string::StrSliceExecFns;
use crate::frame::{EngineError, TimeUnit};

verus! {

pub open spec fn is_digit(c: char) -> bool {
    '0' <= c <= '9'
}

/// Nanoseconds in one unit named by the suffix: ns, us, ms, s, m, h, d, w.
/// Zero for any other suffix.
pub open spec fn suffix_nanos(u: Seq<char>) -> int {
    if u.len() == 1 {
        if u[0] == 's' {
            1_000_000_000
        } else if u[0] == 'm' {
            60_000_000_000
        } else if u[0] == 'h' {
            3_600_000_000_000
        } else if u[0] == 'd' {
            86_400_000_000_000
        } else if u[0] == 'w' {
            604_800_000_000_000
        } else {
            0
        }
    } else if u.len() == 2 && u[1] == 's' {
        if u[0] == 'n' {
            1
        } else if u[0] == 'u' {
            1_000
        } else if u[0] == 'm' {
            1_000_000
        } else {
            0
        }
    } else {
        0
    }
}

/// Calendar months in one unit named by the suffix: `mo` is one, `y` is
/// twelve. Zero for any other suffix.
pub open spec fn suffix_months(u: Seq<char>) -> int {
    if u.len() == 1 && u[0] == 'y' {
        12
    } else if u.len() == 2 && u[0] == 'm' && u[1] == 'o' {
        1
    } else {
        0
    }
}

/// Value of a string of decimal digits.
pub open spec fn digits_value(s: Seq<char>) -> int
    decreases s.len(),
{
    if s.len() == 0 {
        0
    } else {
        digits_value(s.drop_last()) * 10 + (s.last() as int - '0' as int)
    }
}

/// The first position at or after `j` that does not hold a digit.
pub open spec fn digits_end(s: Seq<char>, j: int) -> int
    decreases s.len() - j,
{
    if 0 <= j < s.len() && is_digit(s[j]) {
        digits_end(s, j + 1)
    } else {
        j
    }
}

/// The first position at or after `j` that holds a digit.
pub open spec fn letters_end(s: Seq<char>, j: int) -> int
    decreases s.len() - j,
{
    if 0 <= j < s.len() && !is_digit(s[j]) {
        letters_end(s, j + 1)
    } else {
        j
    }
}

/// Months and nanoseconds of the terms from position `i` on: each term is
/// a non-empty run of digits followed by a non-empty run of other characters
/// naming a known unit. `None` when some term is malformed; the index unit
/// `i` is not known here, as a step must be a length of time.
pub open spec fn terms_step(s: Seq<char>, i: int) -> Option<(int, int)>
    decreases s.len() - i,
{
    if i >= s.len() {
        Some((0, 0))
    } else {
        let k = digits_end(s, i);
        let e = letters_end(s, k);
        if !(i < k && k < e && e <= s.len()) {
            None
        } else {
            let um = suffix_months(s.subrange(k, e));
            let un = suffix_nanos(s.subrange(k, e));
            if um == 0 && un == 0 {
                None
            } else {
                match terms_step(s, e) {
                    Some(t) => Some(
                        (
                            digits_value(s.subrange(i, k)) * um + t.0,
                            digits_value(s.subrange(i, k)) * un + t.1,
                        ),
                    ),
                    None => None,
                }
            }
        }
    }
}

/// The step that the text describes, as (months, nanoseconds): `None` unless
/// the text is a non-empty sequence of well-formed terms, both totals fit in
/// `i64` and the step is not zero.
pub open spec fn duration_step(s: Seq<char>) -> Option<(int, int)> {
    if s.len() == 0 {
        None
    } else {
        match terms_step(s, 0) {
            Some(p) => if p.0 <= i64::MAX && p.1 <= i64::MAX && p.0 + p.1 > 0 {
                Some(p)
            } else {
                None
            },
            None => None,
        }
    }
}

pub open spec fn unit_nanos(tu: TimeUnit) -> int {
    match tu {
        TimeUnit::Milliseconds => 1_000_000,
        TimeUnit::Microseconds => 1_000,
        TimeUnit::Nanoseconds => 1,
    }
}

/// The step in the given unit, as (months, units): the fixed part divided by
/// the unit, rounded down; `None` when the text is refused or the step would
/// be zero.
pub open spec fn step_in(s: Seq<char>, tu: TimeUnit) -> Option<(int, int)> {
    match duration_step(s) {
        Some(p) => if p.0 > 0 || p.1 / unit_nanos(tu) > 0 {
            Some((p.0, p.1 / unit_nanos(tu)))
        } else {
            None
        },
        None => None,
    }
}

spec fn plus(am: int, an: int, o: Option<(int, int)>) -> Option<(int, int)> {
    match o {
        Some(t) => Some((am + t.0, an + t.1)),
        None => None,
    }
}

proof fn lemma_digits_nonneg(t: Seq<char>)
    requires
        forall|q: int| 0 <= q < t.len() ==> is_digit(#[trigger] t[q]),
    ensures
        digits_value(t) >= 0,
    decreases t.len(),
{
    if t.len() > 0 {
        lemma_digits_nonneg(t.drop_last());
        assert(is_digit(t[t.len() - 1]));
    }
}

proof fn lemma_terms_nonneg(s: Seq<char>, i: int)
    ensures
        terms_step(s, i) matches Some(t) ==> t.0 >= 0 && t.1 >= 0,
    decreases s.len() - i,
{
    if 0 <= i < s.len() {
        let k = digits_end(s, i);
        let e = letters_end(s, k);
        if i < k && k < e && e <= s.len() {
            lemma_terms_nonneg(s, e);
            lemma_digits_end(s, i);
            let t = s.subrange(i, k);
            assert forall|q: int| 0 <= q < t.len() implies is_digit(#[trigger] t[q]) by {
                assert(t[q] == s[i + q]);
            }
            lemma_digits_nonneg(t);
            let um = suffix_months(s.subrange(k, e));
            let un = suffix_nanos(s.subrange(k, e));
            let d = digits_value(t);
            assert(d * um >= 0 && d * un >= 0) by (nonlinear_arith)
                requires
                    d >= 0,
                    um >= 0,
                    un >= 0,
            ;
        }
    }
}

/// Every position from `i` up to `digits_end(s, i)` holds a digit.
proof fn lemma_digits_end(s: Seq<char>, i: int)
    requires
        0 <= i,
    ensures
        digits_end(s, i) >= i,
        forall|q: int| i <= q < digits_end(s, i) ==> is_digit(#[trigger] s[q]),
    decreases s.len() - i,
{
    if 0 <= i < s.len() && is_digit(s[i]) {
        lemma_digits_end(s, i + 1);
    }
}

fn suffix_months_exec(s: &str, k: usize, e: usize) -> (r: i64)
    requires
        k <= e <= s@.len(),
    ensures
        r == suffix_months(s@.subrange(k as int, e as int)),
{
    let ghost u = s@.subrange(k as int, e as int);
    if e - k == 1 && s.get_char(k) == 'y' {
        12
    } else if e - k == 2 && s.get_char(k) == 'm' && s.get_char(k + 1) == 'o' {
        1
    } else {
        if e - k == 1 {
            assert(u[0] == s@[k as int]);
        }
        if e - k == 2 {
            assert(u[0] == s@[k as int]);
            assert(u[1] == s@[k + 1]);
        }
        0
    }
}

fn suffix_nanos_exec(s: &str, k: usize, e: usize) -> (r: i64)
    requires
        k <= e <= s@.len(),
    ensures
        r == suffix_nanos(s@.subrange(k as int, e as int)),
{
    let ghost u = s@.subrange(k as int, e as int);
    if e - k == 1 {
        let c = s.get_char(k);
        assert(u[0] == c);
        if c == 's' {
            1_000_000_000
        } else if c == 'm' {
            60_000_000_000
        } else if c == 'h' {
            3_600_000_000_000
        } else if c == 'd' {
            86_400_000_000_000
        } else if c == 'w' {
            604_800_000_000_000
        } else {
            0
        }
    } else if e - k == 2 && s.get_char(k + 1) == 's' {
        let c = s.get_char(k);
        assert(u[0] == c);
        assert(u[1] == 's');
        if c == 'n' {
            1
        } else if c == 'u' {
            1_000
        } else if c == 'm' {
            1_000_000
        } else {
            0
        }
    } else {
        if e - k == 2 {
            assert(u[1] == s@[k + 1]);
        }
        0
    }
}

/// Parses a step description into (months, nanoseconds), adding up its
/// terms ("1h30m" is 90 minutes, "1y6mo" is 18 months).
pub fn parse_duration(s: &str) -> (r: Result<(i64, i64), EngineError>)
    ensures
        duration_step(s@) is None ==> r == Err::<(i64, i64), EngineError>(EngineError::InvalidDurationSpec),
        duration_step(s@) matches Some(p) ==> r == Ok::<(i64, i64), EngineError>((p.0 as i64, p.1 as i64)),
        r matches Ok(p) ==> p.0 >= 0 && p.1 >= 0,
{
    let len = s.unicode_len();
    if len == 0 {
        return Err(EngineError::InvalidDurationSpec);
    }
    let mut i: usize = 0;
    let mut acc_m: i64 = 0;
    let mut acc_n: i64 = 0;
    while i < len
        invariant
            len == s@.len(),
            i <= len,
            0 <= acc_m,
            0 <= acc_n,
            terms_step(s@, 0) == plus(acc_m as int, acc_n as int, terms_step(s@, i as int)),
        decreases len - i,
    {
        let mut k: usize = i;
        let mut value: i64 = 0;
        let mut big = false;
        while k < len && '0' <= s.get_char(k) && s.get_char(k) <= '9'
            invariant
                len == s@.len(),
                i <= k <= len,
                digits_end(s@, i as int) == digits_end(s@, k as int),
                forall|q: int| i <= q < k ==> is_digit(#[trigger] s@[q]),
                !big ==> value == digits_value(s@.subrange(i as int, k as int)),
                big ==> digits_value(s@.subrange(i as int, k as int)) > i64::MAX,
                0 <= value,
            decreases len - k,
        {
            let c = s.get_char(k);
            let d = (c as u32 - '0' as u32) as i64;
            let ghost prev = digits_value(s@.subrange(i as int, k as int));
            proof {
                assert(s@.subrange(i as int, k + 1).drop_last() =~= s@.subrange(i as int, k as int));
                let t = s@.subrange(i as int, k as int);
                assert forall|q: int| 0 <= q < t.len() implies is_digit(#[trigger] t[q]) by {
                    assert(t[q] == s@[i + q]);
                }
                lemma_digits_nonneg(t);
            }
            if !big {
                if value > (i64::MAX - d) / 10 {
                    assert(value * 10 + d > i64::MAX) by (nonlinear_arith)
                        requires
                            value > (i64::MAX - d) / 10,
                            0 <= d <= 9,
                    ;
                    big = true;
                } else {
                    assert(value * 10 + d <= i64::MAX) by (nonlinear_arith)
                        requires
                            value <= (i64::MAX - d) / 10,
                            0 <= d <= 9,
                    ;
                    value = value * 10 + d;
                }
            } else {
                assert(prev * 10 + d > i64::MAX) by (nonlinear_arith)
                    requires
                        prev > i64::MAX,
                        0 <= d <= 9,
                ;
            }
            k += 1;
        }
        let mut e: usize = k;
        while e < len && !('0' <= s.get_char(e) && s.get_char(e) <= '9')
            invariant
                len == s@.len(),
                k <= e <= len,
                letters_end(s@, k as int) == letters_end(s@, e as int),
            decreases len - e,
        {
            e += 1;
        }
        let ghost dv = digits_value(s@.subrange(i as int, k as int));
        assert(digits_end(s@, i as int) == k as int);
        assert(letters_end(s@, k as int) == e as int);
        if k == i || e == k {
            return Err(EngineError::InvalidDurationSpec);
        }
        let um = suffix_months_exec(s, k, e);
        let un = suffix_nanos_exec(s, k, e);
        if um == 0 && un == 0 {
            return Err(EngineError::InvalidDurationSpec);
        }
        let unit = if um > 0 { um } else { un };
        if big || value > i64::MAX / unit || (um > 0 && acc_m > i64::MAX - value * unit) || (um == 0
            && acc_n > i64::MAX - value * unit) {
            proof {
                lemma_terms_nonneg(s@, e as int);
                if big {
                    assert(dv * unit > i64::MAX) by (nonlinear_arith)
                        requires
                            dv > i64::MAX,
                            unit >= 1,
                    ;
                } else if value > i64::MAX / unit {
                    assert(dv * unit > i64::MAX) by (nonlinear_arith)
                        requires
                            dv == value,
                            value > i64::MAX / unit,
                            unit >= 1,
                    ;
                }
                if um > 0 {
                    assert(un == 0);
                } else {
                    assert(um == 0);
                }
            }
            return Err(EngineError::InvalidDurationSpec);
        }
        assert(value * unit <= i64::MAX) by (nonlinear_arith)
            requires
                unit > 0,
                value >= 0,
                value <= i64::MAX / unit,
        ;
        assert(value * unit >= 0) by (nonlinear_arith)
            requires
                unit > 0,
                value >= 0,
        ;
        if um > 0 {
            assert(un == 0);
            acc_m = acc_m + value * unit;
        } else {
            acc_n = acc_n + value * unit;
        }
        i = e;
    }
    if acc_m == 0 && acc_n == 0 {
        return Err(EngineError::InvalidDurationSpec);
    }
    Ok((acc_m, acc_n))
}

} // verus!
