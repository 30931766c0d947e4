//! Row-wise reductions across several expressions.
use vstd::prelude::*;
use crate::frame::{DataFrame, EngineError, height};

verus! {

/// A leaf expression: a column of the frame, or a named constant that is
/// repeated on every row.
#[derive(Debug)]
pub enum Operand {
    Column(String),
    Literal(String, Option<i64>),
}

/// The row-wise reductions.
#[derive(Clone, Copy, Debug, PartialEq, Eq, Structural)]
pub enum Reducer {
    Min,
    Max,
    Sum,
    Coalesce,
}

/// A composite expression that reduces its inputs row by row. It is only
/// built here; `evaluate` materialises it against a frame.
#[derive(Debug)]
pub struct ReduceExpr {
    pub op: Reducer,
    pub inputs: Vec<Operand>,
}

/// A composite expression that gathers its inputs' values row by row into
/// a list.
#[derive(Debug)]
pub struct ListExpr {
    pub inputs: Vec<Operand>,
}

/// Combines an accumulated cell with the next one. Nulls are skipped; the
/// result is null only when both are.
pub open spec fn combine(op: Reducer, acc: Option<i64>, x: Option<i64>) -> Option<i64> {
    match (acc, x) {
        (None, _) => x,
        (Some(a), None) => Some(a),
        (Some(a), Some(b)) => match op {
            Reducer::Min => Some(if b < a { b } else { a }),
            Reducer::Max => Some(if b > a { b } else { a }),
            Reducer::Sum => Some(a.wrapping_add(b)),
            Reducer::Coalesce => Some(a),
        },
    }
}

/// The reduction of one row's cells, taken in order.
pub open spec fn reduce_cells(op: Reducer, cells: Seq<Option<i64>>) -> Option<i64>
    decreases cells.len(),
{
    if cells.len() == 0 {
        None
    } else {
        combine(op, reduce_cells(op, cells.drop_last()), cells.last())
    }
}

/// The column of the frame that carries the name, if any.
pub open spec fn column_named(df: DataFrame, name: Seq<char>) -> Option<Seq<Option<i64>>> {
    if exists|a: int| 0 <= a < df.columns@.len() && (#[trigger] df.columns@[a]).name@ == name {
        let a = choose|a: int| 0 <= a < df.columns@.len() && (#[trigger] df.columns@[a]).name@ == name;
        Some(df.columns@[a].values@)
    } else {
        None
    }
}

/// What an operand evaluates to on `rows` rows of the frame; `None` when it
/// names a column the frame does not hold.
pub open spec fn operand_values(e: Operand, df: DataFrame, rows: nat) -> Option<Seq<Option<i64>>> {
    match e {
        Operand::Column(name) => column_named(df, name@),
        Operand::Literal(_, v) => Some(Seq::new(rows, |r: int| v)),
    }
}

/// Rows that an expression yields on the frame: its height, or one row for a
/// frame without columns, where a literal still gives one value.
pub open spec fn context_rows(df: DataFrame) -> nat {
    if df.columns@.len() == 0 {
        1
    } else {
        height(df)
    }
}

pub fn context_rows_of(df: &DataFrame) -> (r: usize)
    ensures
        r == context_rows(*df),
{
    if df.columns.len() == 0 {
        1
    } else {
        df.height()
    }
}

/// Every operand resolves against the frame.
pub open spec fn all_resolve(es: Seq<Operand>, df: DataFrame, rows: nat) -> bool {
    forall|e: int| 0 <= e < es.len() ==> (#[trigger] operand_values(es[e], df, rows)) is Some
}

/// The cells of row `r` across the evaluated operands, in operand order.
pub open spec fn row_cells(cols: Seq<Seq<Option<i64>>>, r: int) -> Seq<Option<i64>> {
    Seq::new(cols.len(), |e: int| cols[e][r])
}

/// The operands' evaluated columns.
pub open spec fn operand_columns(es: Seq<Operand>, df: DataFrame, rows: nat) -> Seq<Seq<Option<i64>>> {
    Seq::new(es.len(), |e: int| operand_values(es[e], df, rows).unwrap())
}

/// Evaluates one operand on the frame's rows.
pub fn eval_operand(e: &Operand, df: &DataFrame, rows: usize) -> (r: Result<Vec<Option<i64>>, EngineError>)
    requires
        df.wf(),
        df.columns@.len() > 0 ==> rows == height(*df),
    ensures
        operand_values(*e, *df, rows as nat) is None ==> r == Err::<Vec<Option<i64>>, EngineError>(
            EngineError::ColumnNotFound,
        ),
        operand_values(*e, *df, rows as nat) matches Some(v) ==> (r matches Ok(out) && out@ == v
            && v.len() == rows),
{
    match e {
        Operand::Column(name) => {
            let mut a: usize = 0;
            while a < df.columns.len()
                invariant
                    df.wf(),
                    *e == Operand::Column(*name),
                    df.columns@.len() > 0 ==> rows == height(*df),
                    a <= df.columns@.len(),
                    forall|q: int| 0 <= q < a ==> (#[trigger] df.columns@[q]).name@ != name@,
                decreases df.columns@.len() - a,
            {
                if df.columns[a].name == *name {
                    let src = &df.columns[a].values;
                    let mut out: Vec<Option<i64>> = Vec::new();
                    let len = src.len();
                    let mut q: usize = 0;
                    while q < len
                        invariant
                            df.wf(),
                            *e == Operand::Column(*name),
                            df.columns@.len() > 0 ==> rows == height(*df),
                            a < df.columns@.len(),
                            src == df.columns@[a as int].values,
                            df.columns@[a as int].name@ == name@,
                            len == src@.len(),
                            q <= len,
                            out@ == src@.subrange(0, q as int),
                        decreases len - q,
                    {
                        out.push(src[q]);
                        assert(out@ =~= src@.subrange(0, q + 1));
                        q += 1;
                    }
                    proof {
                        assert(out@ =~= src@);
                        assert(0 <= a < df.columns@.len() && df.columns@[a as int].name@ == name@);
                        let a2 = choose|a2: int| 0 <= a2 < df.columns@.len() && (#[trigger] df.columns@[a2]).name@ == name@;
                        assert(a2 == a as int);
                        assert(src@.len() == df.columns@[0].values@.len());
                        assert(column_named(*df, name@) == Some(src@));
                        assert(*e == Operand::Column(*name));
                    }
                    return Ok(out);
                }
                a += 1;
            }
            Err(EngineError::ColumnNotFound)
        },
        Operand::Literal(_, v) => {
            let mut out: Vec<Option<i64>> = Vec::new();
            let mut q: usize = 0;
            while q < rows
                invariant
                    q <= rows,
                    out@ == Seq::new(q as nat, |r: int| *v),
                decreases rows - q,
            {
                out.push(*v);
                assert(out@ =~= Seq::new((q + 1) as nat, |r: int| *v));
                q += 1;
            }
            Ok(out)
        },
    }
}

/// Evaluates every operand, in order.
pub fn eval_operands(es: &Vec<Operand>, df: &DataFrame, rows: usize) -> (r: Result<Vec<Vec<Option<i64>>>, EngineError>)
    requires
        df.wf(),
        df.columns@.len() > 0 ==> rows == height(*df),
    ensures
        !all_resolve(es@, *df, rows as nat) ==> r == Err::<Vec<Vec<Option<i64>>>, EngineError>(
            EngineError::ColumnNotFound,
        ),
        all_resolve(es@, *df, rows as nat) ==> (r matches Ok(cols) && cols@.len() == es@.len()
            && forall|e: int| 0 <= e < es@.len() ==> (#[trigger] cols@[e])@ == operand_columns(es@, *df, rows as nat)[e]
            && cols@[e]@.len() == rows),
{
    let mut cols: Vec<Vec<Option<i64>>> = Vec::new();
    let mut e: usize = 0;
    while e < es.len()
        invariant
            df.wf(),
            df.columns@.len() > 0 ==> rows == height(*df),
            e <= es@.len(),
            cols@.len() == e,
            forall|q: int| 0 <= q < e ==> (#[trigger] operand_values(es@[q], *df, rows as nat)) is Some,
            forall|q: int| 0 <= q < e ==> (#[trigger] cols@[q])@ == operand_columns(es@, *df, rows as nat)[q]
                && cols@[q]@.len() == rows,
        decreases es@.len() - e,
    {
        match eval_operand(&es[e], df, rows) {
            Ok(v) => {
                cols.push(v);
            },
            Err(err) => {
                return Err(err);
            },
        }
        e += 1;
    }
    Ok(cols)
}

fn combine_exec(op: Reducer, acc: Option<i64>, x: Option<i64>) -> (r: Option<i64>)
    ensures
        r == combine(op, acc, x),
{
    match (acc, x) {
        (None, _) => x,
        (Some(a), None) => Some(a),
        (Some(a), Some(b)) => match op {
            Reducer::Min => Some(if b < a { b } else { a }),
            Reducer::Max => Some(if b > a { b } else { a }),
            Reducer::Sum => Some(a.wrapping_add(b)),
            Reducer::Coalesce => Some(a),
        },
    }
}

/// Reduces already-evaluated columns of equal length row by row.
pub fn reduce_columns(op: Reducer, cols: &Vec<Vec<Option<i64>>>, rows: usize) -> (r: Vec<Option<i64>>)
    requires
        forall|e: int| 0 <= e < cols@.len() ==> (#[trigger] cols@[e])@.len() == rows,
    ensures
        r@.len() == rows,
        forall|q: int| 0 <= q < rows ==> #[trigger] r@[q] == reduce_cells(
            op,
            row_cells(cols@.map_values(|c: Vec<Option<i64>>| c@), q),
        ),
{
    let ghost m = cols@.map_values(|c: Vec<Option<i64>>| c@);
    let mut out: Vec<Option<i64>> = Vec::new();
    let mut q: usize = 0;
    while q < rows
        invariant
            m == cols@.map_values(|c: Vec<Option<i64>>| c@),
            forall|e: int| 0 <= e < cols@.len() ==> (#[trigger] cols@[e])@.len() == rows,
            q <= rows,
            out@.len() == q,
            forall|p: int| 0 <= p < q ==> #[trigger] out@[p] == reduce_cells(op, row_cells(m, p)),
        decreases rows - q,
    {
        let ghost cells = row_cells(m, q as int);
        let mut acc: Option<i64> = None;
        let mut e: usize = 0;
        assert(cells.subrange(0, 0).len() == 0);
        while e < cols.len()
            invariant
                m == cols@.map_values(|c: Vec<Option<i64>>| c@),
                forall|e2: int| 0 <= e2 < cols@.len() ==> (#[trigger] cols@[e2])@.len() == rows,
                q < rows,
                cells == row_cells(m, q as int),
                e <= cols@.len(),
                acc == reduce_cells(op, cells.subrange(0, e as int)),
            decreases cols@.len() - e,
        {
            assert(cells.subrange(0, e + 1).drop_last() =~= cells.subrange(0, e as int));
            assert(cells.subrange(0, e + 1).last() == cols@[e as int]@[q as int]);
            acc = combine_exec(op, acc, cols[e][q]);
            e += 1;
        }
        assert(cells.subrange(0, cols@.len() as int) =~= cells);
        out.push(acc);
        q += 1;
    }
    out
}

fn build(op: Reducer, exprs: Vec<Operand>) -> (r: Result<ReduceExpr, EngineError>)
    ensures
        exprs@.len() == 0 ==> r == Err::<ReduceExpr, EngineError>(EngineError::EmptyExpressionList),
        exprs@.len() > 0 ==> (r matches Ok(x) && x.op == op && x.inputs@ == exprs@),
{
    if exprs.len() == 0 {
        Err(EngineError::EmptyExpressionList)
    } else {
        Ok(ReduceExpr { op, inputs: exprs })
    }
}

/// Row-wise minimum of the expressions, ignoring nulls.
pub fn min_exprs(exprs: Vec<Operand>) -> (r: Result<ReduceExpr, EngineError>)
    ensures
        exprs@.len() == 0 ==> r == Err::<ReduceExpr, EngineError>(EngineError::EmptyExpressionList),
        exprs@.len() > 0 ==> (r matches Ok(x) && x.op == Reducer::Min && x.inputs@ == exprs@),
{
    build(Reducer::Min, exprs)
}

/// Row-wise maximum of the expressions, ignoring nulls.
pub fn max_exprs(exprs: Vec<Operand>) -> (r: Result<ReduceExpr, EngineError>)
    ensures
        exprs@.len() == 0 ==> r == Err::<ReduceExpr, EngineError>(EngineError::EmptyExpressionList),
        exprs@.len() > 0 ==> (r matches Ok(x) && x.op == Reducer::Max && x.inputs@ == exprs@),
{
    build(Reducer::Max, exprs)
}

/// Row-wise sum of the expressions, nulls counting as zero unless all are null.
pub fn sum_exprs(exprs: Vec<Operand>) -> (r: Result<ReduceExpr, EngineError>)
    ensures
        exprs@.len() == 0 ==> r == Err::<ReduceExpr, EngineError>(EngineError::EmptyExpressionList),
        exprs@.len() > 0 ==> (r matches Ok(x) && x.op == Reducer::Sum && x.inputs@ == exprs@),
{
    build(Reducer::Sum, exprs)
}

/// Row-wise first non-null value among the expressions, in their order.
pub fn coalesce_exprs(exprs: Vec<Operand>) -> (r: Result<ReduceExpr, EngineError>)
    ensures
        exprs@.len() == 0 ==> r == Err::<ReduceExpr, EngineError>(EngineError::EmptyExpressionList),
        exprs@.len() > 0 ==> (r matches Ok(x) && x.op == Reducer::Coalesce && x.inputs@ == exprs@),
{
    build(Reducer::Coalesce, exprs)
}

/// Row-wise list of the expressions' values, nulls included.
pub fn concat_lst(exprs: Vec<Operand>) -> (r: Result<ListExpr, EngineError>)
    ensures
        exprs@.len() == 0 ==> r == Err::<ListExpr, EngineError>(EngineError::EmptyExpressionList),
        exprs@.len() > 0 ==> (r matches Ok(x) && x.inputs@ == exprs@),
{
    if exprs.len() == 0 {
        Err(EngineError::EmptyExpressionList)
    } else {
        Ok(ListExpr { inputs: exprs })
    }
}

/// Turns evaluated columns of equal length into rows: row `q` holds each
/// column's value at `q`, in column order.
pub fn gather_rows(cols: &Vec<Vec<Option<i64>>>, rows: usize) -> (r: Vec<Vec<Option<i64>>>)
    requires
        forall|e: int| 0 <= e < cols@.len() ==> (#[trigger] cols@[e])@.len() == rows,
    ensures
        r@.len() == rows,
        forall|q: int| 0 <= q < rows ==> (#[trigger] r@[q])@ == row_cells(
            cols@.map_values(|c: Vec<Option<i64>>| c@),
            q,
        ),
{
    let ghost m = cols@.map_values(|c: Vec<Option<i64>>| c@);
    let mut out: Vec<Vec<Option<i64>>> = Vec::new();
    let mut q: usize = 0;
    while q < rows
        invariant
            m == cols@.map_values(|c: Vec<Option<i64>>| c@),
            forall|e: int| 0 <= e < cols@.len() ==> (#[trigger] cols@[e])@.len() == rows,
            q <= rows,
            out@.len() == q,
            forall|p: int| 0 <= p < q ==> (#[trigger] out@[p])@ == row_cells(m, p),
        decreases rows - q,
    {
        let mut row: Vec<Option<i64>> = Vec::new();
        let mut e: usize = 0;
        while e < cols.len()
            invariant
                m == cols@.map_values(|c: Vec<Option<i64>>| c@),
                forall|e2: int| 0 <= e2 < cols@.len() ==> (#[trigger] cols@[e2])@.len() == rows,
                q < rows,
                e <= cols@.len(),
                row@ == row_cells(m, q as int).subrange(0, e as int),
            decreases cols@.len() - e,
        {
            row.push(cols[e][q]);
            assert(row@ =~= row_cells(m, q as int).subrange(0, e + 1));
            e += 1;
        }
        assert(row@ =~= row_cells(m, q as int));
        out.push(row);
        q += 1;
    }
    out
}

impl ReduceExpr {
    /// Materialises the reduction against the frame: one value per row.
    pub fn evaluate(&self, df: &DataFrame) -> (r: Result<Vec<Option<i64>>, EngineError>)
        requires
            df.wf(),
        ensures
            !all_resolve(self.inputs@, *df, context_rows(*df)) ==> r == Err::<Vec<Option<i64>>, EngineError>(
                EngineError::ColumnNotFound,
            ),
            all_resolve(self.inputs@, *df, context_rows(*df)) ==> (r matches Ok(v) && v@.len() == context_rows(*df) && forall|q: int|
                0 <= q < context_rows(*df) ==> #[trigger] v@[q] == reduce_cells(
                    self.op,
                    row_cells(operand_columns(self.inputs@, *df, context_rows(*df)), q),
                )),
    {
        let rows = context_rows_of(df);
        let cols = eval_operands(&self.inputs, df, rows)?;
        let out = reduce_columns(self.op, &cols, rows);
        assert(cols@.map_values(|c: Vec<Option<i64>>| c@) =~= operand_columns(self.inputs@, *df, context_rows(*df)));
        Ok(out)
    }
}

impl ListExpr {
    /// Materialises the lists against the frame: per row, the operands' values
    /// in order.
    pub fn evaluate(&self, df: &DataFrame) -> (r: Result<Vec<Vec<Option<i64>>>, EngineError>)
        requires
            df.wf(),
        ensures
            !all_resolve(self.inputs@, *df, context_rows(*df)) ==> r == Err::<Vec<Vec<Option<i64>>>, EngineError>(
                EngineError::ColumnNotFound,
            ),
            all_resolve(self.inputs@, *df, context_rows(*df)) ==> (r matches Ok(v) && v@.len() == context_rows(*df) && forall|q: int|
                0 <= q < context_rows(*df) ==> (#[trigger] v@[q])@ == row_cells(
                    operand_columns(self.inputs@, *df, context_rows(*df)),
                    q,
                )),
    {
        let rows = context_rows_of(df);
        let cols = eval_operands(&self.inputs, df, rows)?;
        let out = gather_rows(&cols, rows);
        assert(cols@.map_values(|c: Vec<Option<i64>>| c@) =~= operand_columns(self.inputs@, *df, context_rows(*df)));
        Ok(out)
    }
}

/// A reduced row is null exactly when every cell of the row is null.
pub proof fn lemma_null_iff_all_null(op: Reducer, cells: Seq<Option<i64>>)
    ensures
        reduce_cells(op, cells) is None <==> forall|e: int| 0 <= e < cells.len() ==> (#[trigger] cells[e]) is None,
    decreases cells.len(),
{
    if cells.len() > 0 {
        let d = cells.drop_last();
        lemma_null_iff_all_null(op, d);
        assert forall|e: int| 0 <= e < d.len() implies #[trigger] d[e] == cells[e] by {}
        if reduce_cells(op, cells) is None {
            assert forall|e: int| 0 <= e < cells.len() implies (#[trigger] cells[e]) is None by {
                if e < d.len() {
                    assert(d[e] == cells[e]);
                }
            }
        }
    }
}

/// The exact sum of a row's non-null cells; `None` when all are null.
pub open spec fn exact_sum(cells: Seq<Option<i64>>) -> Option<int>
    decreases cells.len(),
{
    if cells.len() == 0 {
        None
    } else {
        match (exact_sum(cells.drop_last()), cells.last()) {
            (None, None) => None,
            (None, Some(b)) => Some(b as int),
            (Some(a), None) => Some(a),
            (Some(a), Some(b)) => Some(a + b),
        }
    }
}

/// The running totals of the row's non-null cells all fit in `i64`.
pub open spec fn sums_fit(cells: Seq<Option<i64>>) -> bool {
    forall|n: int|
        0 <= n <= cells.len() ==> match #[trigger] exact_sum(cells.subrange(0, n)) {
            Some(t) => i64::MIN <= t <= i64::MAX,
            None => true,
        }
}

/// Where no running total leaves `i64`, the row-wise sum is the exact sum.
pub proof fn lemma_sum_exact(cells: Seq<Option<i64>>)
    requires
        sums_fit(cells),
    ensures
        reduce_cells(Reducer::Sum, cells) matches Some(v) ==> exact_sum(cells) == Some(v as int),
        reduce_cells(Reducer::Sum, cells) is None ==> exact_sum(cells) is None,
    decreases cells.len(),
{
    if cells.len() > 0 {
        let d = cells.drop_last();
        assert forall|n: int| 0 <= n <= d.len() implies match #[trigger] exact_sum(d.subrange(0, n)) {
            Some(t) => i64::MIN <= t <= i64::MAX,
            None => true,
        } by {
            assert(d.subrange(0, n) =~= cells.subrange(0, n));
            assert(match exact_sum(cells.subrange(0, n)) {
                Some(t) => i64::MIN <= t <= i64::MAX,
                None => true,
            });
        }
        lemma_sum_exact(d);
        assert(cells.subrange(0, cells.len() as int) =~= cells);
        assert(match exact_sum(cells.subrange(0, cells.len() as int)) {
            Some(t) => i64::MIN <= t <= i64::MAX,
            None => true,
        });
    }
}

} // verus!
