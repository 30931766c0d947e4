//! Generation of evenly stepped instants between two bounds.
use vstd::prelude::*;
use crate::frame::{DataFrame, DataType, EngineError, Series, TimeUnit};
use crate::duration::{duration_step, parse_duration, step_in, unit_nanos};
use crate::calendar::{fits_i64, shift_instant, shift_instant_exec};
use crate::structs::{operand_dtype, operand_dtype_exec};
use crate::reduce::{Operand, context_rows, context_rows_of, eval_operand, operand_values};

verus! {

/// Which ends of a generated range are included.
#[derive(Clone, Copy, Debug, PartialEq, Eq, Structural)]
pub enum ClosedWindow {
    Both,
    Left,
    Right,
    Neither,
}

pub open spec fn includes_start(c: ClosedWindow) -> bool {
    c == ClosedWindow::Both || c == ClosedWindow::Left
}

pub open spec fn includes_stop(c: ClosedWindow) -> bool {
    c == ClosedWindow::Both || c == ClosedWindow::Right
}

/// The first candidate instant.
pub open spec fn first_instant(start: int, step: int, c: ClosedWindow) -> int {
    if includes_start(c) {
        start
    } else {
        start + step
    }
}

/// The instant lies before the stop bound, or on it where the stop is included.
pub open spec fn before_stop(v: int, stop: int, c: ClosedWindow) -> bool {
    if includes_stop(c) {
        v <= stop
    } else {
        v < stop
    }
}

/// `vs` is the range from `start` to `stop` stepped by `step` under `c`:
/// every instant `first + k * step` that lies before the stop, in order.
pub open spec fn is_range(vs: Seq<i64>, start: int, stop: int, step: int, c: ClosedWindow) -> bool {
    &&& forall|k: int|
        0 <= k < vs.len() ==> #[trigger] vs[k] == first_instant(start, step, c) + k * step
            && before_stop(vs[k] as int, stop, c)
    &&& !before_stop(first_instant(start, step, c) + vs.len() * step, stop, c)
}

/// The instants from `start` to `stop` stepped by `step` under `c`.
pub fn generate(start: i64, stop: i64, step: i64, closed: ClosedWindow) -> (r: Vec<i64>)
    requires
        step > 0,
    ensures
        is_range(r@, start as int, stop as int, step as int, closed),
{
    let mut out: Vec<i64> = Vec::new();
    let ghost first = first_instant(start as int, step as int, closed);
    let mut v: i64 = if closed == ClosedWindow::Both || closed == ClosedWindow::Left {
        start
    } else {
        match start.checked_add(step) {
            Some(x) => x,
            None => {
                return out;
            },
        }
    };
    loop
        invariant
            step > 0,
            v as int == first + out@.len() * step,
            first == first_instant(start as int, step as int, closed),
            forall|k: int|
                0 <= k < out@.len() ==> #[trigger] out@[k] == first + k * step && before_stop(
                    out@[k] as int,
                    stop as int,
                    closed,
                ),
        decreases i64::MAX - v,
    {
        let inside = if closed == ClosedWindow::Both || closed == ClosedWindow::Right {
            v <= stop
        } else {
            v < stop
        };
        if !inside {
            return out;
        }
        let ghost len = out@.len();
        out.push(v);
        assert(first + (len + 1) * step == first + len * step + step) by (nonlinear_arith);
        match v.checked_add(step) {
            Some(x) => {
                v = x;
            },
            None => {
                assert(!before_stop(first + out@.len() * step, stop as int, closed));
                return out;
            },
        }
    }
}

/// Largest month offset that calendar stepping handles.
pub const MONTH_LIMIT: i128 = 0x100_0000_0000;

/// Largest offset in units that calendar stepping handles.
pub const UNIT_LIMIT: i128 = 0x1_0000_0000_0000_0000_0000_0000;

/// The `k`-th calendar step from `start`: `k * months` months and then
/// `k * units` units later; `None` beyond the handled offsets or outside `i64`.
pub open spec fn calendar_instant(start: int, months: int, units: int, tu: TimeUnit, k: int) -> Option<int> {
    if k * months > MONTH_LIMIT || k * units > UNIT_LIMIT {
        None
    } else if fits_i64(shift_instant(start, k * months, k * units, tu)) {
        Some(shift_instant(start, k * months, k * units, tu))
    } else {
        None
    }
}

/// `vs` is the calendar range: the steps from the first candidate on (step
/// zero, or one where the start is excluded), up to the first one that is
/// not before the stop or cannot be represented.
pub open spec fn is_calendar_range(
    vs: Seq<i64>,
    start: int,
    stop: int,
    months: int,
    units: int,
    c: ClosedWindow,
    tu: TimeUnit,
) -> bool {
    let j0: int = if includes_start(c) { 0 } else { 1 };
    &&& forall|i: int|
        0 <= i < vs.len() ==> calendar_instant(start, months, units, tu, j0 + i) == Some(
            #[trigger] vs[i] as int,
        ) && before_stop(vs[i] as int, stop, c)
    &&& match calendar_instant(start, months, units, tu, j0 + vs.len()) {
        Some(v) => !before_stop(v, stop, c),
        None => true,
    }
}

/// `vs` is the range for the step (months, units): a fixed step when there
/// are no months, a calendar one otherwise.
pub open spec fn is_stepped_range(
    vs: Seq<i64>,
    start: int,
    stop: int,
    step: (int, int),
    c: ClosedWindow,
    tu: TimeUnit,
) -> bool {
    if step.0 == 0 {
        is_range(vs, start, stop, step.1, c)
    } else {
        is_calendar_range(vs, start, stop, step.0, step.1, c, tu)
    }
}

/// The calendar range from `start` to `stop` stepped by `months` months and
/// `units` units.
pub fn generate_calendar(start: i64, stop: i64, months: i64, units: i64, closed: ClosedWindow, tu: TimeUnit) -> (r: Vec<i64>)
    requires
        months > 0,
        units >= 0,
    ensures
        is_calendar_range(r@, start as int, stop as int, months as int, units as int, closed, tu),
{
    let mut out: Vec<i64> = Vec::new();
    let j0: i128 = if closed == ClosedWindow::Both || closed == ClosedWindow::Left { 0 } else { 1 };
    let mut k: i128 = j0;
    loop
        invariant
            months > 0,
            units >= 0,
            j0 == (if includes_start(closed) { 0int } else { 1int }),
            k == j0 + out@.len(),
            0 <= k <= MONTH_LIMIT + 1,
            forall|i: int|
                0 <= i < out@.len() ==> calendar_instant(start as int, months as int, units as int, tu, j0 + i)
                    == Some(#[trigger] out@[i] as int) && before_stop(out@[i] as int, stop as int, closed),
        decreases MONTH_LIMIT + 1 - k,
    {
        assert(k * months <= 0x1_0000_0000_0000_0000_0000_0000_0000 && k * units
            <= 0x1_0000_0000_0000_0000_0000_0000_0000 && k * units >= 0 && k * months >= 0) by (nonlinear_arith)
            requires
                0 <= k <= MONTH_LIMIT + 1,
                0 < months,
                0 <= units,
        ;
        let km = k * (months as i128);
        let ku = k * (units as i128);
        if km > MONTH_LIMIT || ku > UNIT_LIMIT {
            return out;
        }
        assert(ku >= 0) by (nonlinear_arith)
            requires
                k >= 0,
                units >= 0,
                ku == k * units,
        ;
        assert(k <= MONTH_LIMIT) by (nonlinear_arith)
            requires
                km == k * months,
                months >= 1,
                km <= MONTH_LIMIT,
                k >= 0,
        ;
        match shift_instant_exec(start, km, ku, tu) {
            None => {
                return out;
            },
            Some(v) => {
                let inside = if closed == ClosedWindow::Both || closed == ClosedWindow::Right {
                    v <= stop
                } else {
                    v < stop
                };
                if !inside {
                    return out;
                }
                out.push(v);
                k += 1;
            },
        }
    }
}

/// The range from `start` to `stop` for the step (months, units).
pub fn generate_stepped(start: i64, stop: i64, step: (i64, i64), closed: ClosedWindow, tu: TimeUnit) -> (r: Vec<i64>)
    requires
        step.0 >= 0,
        step.1 >= 0,
        step.0 > 0 || step.1 > 0,
    ensures
        is_stepped_range(r@, start as int, stop as int, (step.0 as int, step.1 as int), closed, tu),
{
    if step.0 == 0 {
        generate(start, stop, step.1, closed)
    } else {
        generate_calendar(start, stop, step.0, step.1, closed, tu)
    }
}

/// A generated column of instants with its time zone.
#[derive(Debug)]
pub struct DateRange {
    pub series: Series,
    pub time_zone: Option<String>,
}

/// Generates the instants from `start` to `stop` (given in `tu`) stepped by
/// `every`, as a column named `name` of type `Datetime(tu)`. Month and year
/// terms step on the civil date, clamping the day to the month's end.
pub fn date_range(
    start: i64,
    stop: i64,
    every: &str,
    closed: ClosedWindow,
    name: String,
    tu: TimeUnit,
    tz: Option<String>,
) -> (r: Result<DateRange, EngineError>)
    ensures
        step_in(every@, tu) is None ==> r == Err::<DateRange, EngineError>(
            EngineError::InvalidDurationSpec,
        ),
        step_in(every@, tu) matches Some(step) ==> (r matches Ok(d) && exists|vs: Seq<i64>|
            is_stepped_range(vs, start as int, stop as int, step, closed, tu) && d.series.values@
                == vs.map_values(|x: i64| Some(x)) && d.series.name@ == name@ && d.series.dtype
                == DataType::Datetime(tu) && d.time_zone == tz),
{
    let step = step_of(every, tu)?;
    let vs = generate_stepped(start, stop, step, closed, tu);
    let values = wrap_all(&vs);
    Ok(DateRange { series: Series { name, dtype: DataType::Datetime(tu), values }, time_zone: tz })
}

/// The step of `every` in the unit `tu`, as (months, units).
pub fn step_of(every: &str, tu: TimeUnit) -> (r: Result<(i64, i64), EngineError>)
    ensures
        step_in(every@, tu) is None ==> r == Err::<(i64, i64), EngineError>(EngineError::InvalidDurationSpec),
        step_in(every@, tu) matches Some(s) ==> r == Ok::<(i64, i64), EngineError>((s.0 as i64, s.1 as i64)),
        r matches Ok(s) ==> s.0 >= 0 && s.1 >= 0 && (s.0 > 0 || s.1 > 0),
{
    let (m, n) = parse_duration(every)?;
    step_in_unit(m, n, tu)
}

fn step_in_unit(m: i64, n: i64, tu: TimeUnit) -> (r: Result<(i64, i64), EngineError>)
    requires
        m >= 0,
        n >= 0,
    ensures
        !(m > 0 || n as int / unit_nanos(tu) > 0) ==> r == Err::<(i64, i64), EngineError>(
            EngineError::InvalidDurationSpec,
        ),
        m > 0 || n as int / unit_nanos(tu) > 0 ==> r == Ok::<(i64, i64), EngineError>(
            (m, (n as int / unit_nanos(tu)) as i64),
        ),
        r matches Ok(s) ==> s.0 >= 0 && s.1 >= 0 && (s.0 > 0 || s.1 > 0),
{
    let unit: i64 = match tu {
        TimeUnit::Milliseconds => 1_000_000,
        TimeUnit::Microseconds => 1_000,
        TimeUnit::Nanoseconds => 1,
    };
    let s = n / unit;
    if m == 0 && s == 0 {
        return Err(EngineError::InvalidDurationSpec);
    }
    Ok((m, s))
}

/// Marks every instant as present.
pub fn wrap_all(vs: &Vec<i64>) -> (r: Vec<Option<i64>>)
    ensures
        r@ == vs@.map_values(|x: i64| Some(x)),
{
    let mut out: Vec<Option<i64>> = Vec::new();
    let mut k: usize = 0;
    while k < vs.len()
        invariant
            k <= vs@.len(),
            out@ == vs@.subrange(0, k as int).map_values(|x: i64| Some(x)),
        decreases vs@.len() - k,
    {
        out.push(Some(vs[k]));
        assert(out@ =~= vs@.subrange(0, k + 1).map_values(|x: i64| Some(x)));
        k += 1;
    }
    assert(vs@.subrange(0, vs@.len() as int) =~= vs@);
    out
}

/// A range per row, from that row's start to its end; built here and
/// materialised by `evaluate`.
#[derive(Debug)]
pub struct RangeExpr {
    pub start: Operand,
    pub end: Operand,
    pub every_months: i64,
    pub every_nanos: i64,
    pub closed: ClosedWindow,
    pub name: String,
    pub time_zone: Option<String>,
}

/// Builds the per-row range expression; refuses a malformed step.
pub fn date_range_lazy(
    start: Operand,
    end: Operand,
    every: &str,
    closed: ClosedWindow,
    name: String,
    tz: Option<String>,
) -> (r: Result<RangeExpr, EngineError>)
    ensures
        duration_step(every@) is None ==> r == Err::<RangeExpr, EngineError>(
            EngineError::InvalidDurationSpec,
        ),
        duration_step(every@) matches Some(p) ==> (r matches Ok(x) && x.start == start && x.end
            == end && x.every_months == p.0 && x.every_nanos == p.1 && x.closed == closed && x.name
            == name && x.time_zone == tz),
{
    let (every_months, every_nanos) = parse_duration(every)?;
    Ok(RangeExpr { start, end, every_months, every_nanos, closed, name, time_zone: tz })
}

/// The first `n` rows of `v` hold, for each row, the range between its start
/// and end, or null where either is null.
pub open spec fn ranged_rows(
    starts: Seq<Option<i64>>,
    ends: Seq<Option<i64>>,
    step: (int, int),
    c: ClosedWindow,
    tu: TimeUnit,
    v: Seq<Option<Vec<i64>>>,
    n: int,
) -> bool {
    forall|q: int|
        0 <= q < n ==> match (starts[q], ends[q]) {
            (Some(a), Some(b)) => (#[trigger] v[q]) matches Some(w) && is_stepped_range(
                w@,
                a as int,
                b as int,
                step,
                c,
                tu,
            ),
            _ => v[q] is None,
        }
}

/// The unit of a range expression on the frame: that of the start column
/// where it is a datetime column, microseconds otherwise.
pub open spec fn range_unit(e: Operand, df: DataFrame) -> TimeUnit {
    match e {
        Operand::Column(_) => match operand_dtype(e, df) {
            DataType::Datetime(tu) => tu,
            _ => TimeUnit::Microseconds,
        },
        Operand::Literal(_, _) => TimeUnit::Microseconds,
    }
}

/// The step (months, units) of the expression in unit `tu`, if not zero.
pub open spec fn expr_step(x: RangeExpr, tu: TimeUnit) -> Option<(int, int)> {
    if x.every_months >= 0 && x.every_nanos >= 0 && (x.every_months > 0 || x.every_nanos as int
        / unit_nanos(tu) > 0) {
        Some((x.every_months as int, x.every_nanos as int / unit_nanos(tu)))
    } else {
        None
    }
}

impl RangeExpr {
    /// Materialises the ranges against the frame, in the unit of the start
    /// column (see `range_unit`): per row, the range between that row's
    /// start and end, or null where either is null.
    pub fn evaluate(&self, df: &DataFrame) -> (r: Result<Vec<Option<Vec<i64>>>, EngineError>)
        requires
            df.wf(),
        ensures
            (operand_values(self.start, *df, context_rows(*df)) is None || operand_values(
                self.end,
                *df,
                context_rows(*df),
            ) is None) ==> r == Err::<Vec<Option<Vec<i64>>>, EngineError>(EngineError::ColumnNotFound),
            operand_values(self.start, *df, context_rows(*df)) is Some && operand_values(
                self.end,
                *df,
                context_rows(*df),
            ) is Some && expr_step(*self, range_unit(self.start, *df)) is None ==> r == Err::<
                Vec<Option<Vec<i64>>>,
                EngineError,
            >(EngineError::InvalidDurationSpec),
            operand_values(self.start, *df, context_rows(*df)) is Some && operand_values(
                self.end,
                *df,
                context_rows(*df),
            ) is Some && expr_step(*self, range_unit(self.start, *df)) is Some ==> (r matches Ok(v)
                && v@.len() == context_rows(*df) && ranged_rows(
                operand_values(self.start, *df, context_rows(*df)).unwrap(),
                operand_values(self.end, *df, context_rows(*df)).unwrap(),
                expr_step(*self, range_unit(self.start, *df)).unwrap(),
                self.closed,
                range_unit(self.start, *df),
                v@,
                v@.len() as int,
            )),
    {
        let rows = context_rows_of(df);
        let starts = eval_operand(&self.start, df, rows)?;
        let ends = eval_operand(&self.end, df, rows)?;
        let tu = match &self.start {
            Operand::Column(_) => match operand_dtype_exec(&self.start, df) {
                DataType::Datetime(u) => u,
                _ => TimeUnit::Microseconds,
            },
            Operand::Literal(_, _) => TimeUnit::Microseconds,
        };
        if self.every_months < 0 || self.every_nanos < 0 {
            return Err(EngineError::InvalidDurationSpec);
        }
        let step = step_in_unit(self.every_months, self.every_nanos, tu)?;
        let ghost st = expr_step(*self, tu).unwrap();
        let mut out: Vec<Option<Vec<i64>>> = Vec::new();
        let mut q: usize = 0;
        while q < rows
            invariant
                step.0 >= 0,
                step.1 >= 0,
                step.0 > 0 || step.1 > 0,
                st == (step.0 as int, step.1 as int),
                starts@.len() == rows,
                ends@.len() == rows,
                q <= rows,
                out@.len() == q,
                ranged_rows(starts@, ends@, st, self.closed, tu, out@, q as int),
            decreases rows - q,
        {
            match (starts[q], ends[q]) {
                (Some(a), Some(b)) => {
                    let w = generate_stepped(a, b, step, self.closed, tu);
                    out.push(Some(w));
                },
                _ => {
                    out.push(None);
                },
            }
            q += 1;
        }
        Ok(out)
    }
}

} // verus!
