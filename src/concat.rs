//! Row-stacking and column-stacking of frames.
use vstd::prelude::*;
use crate::frame::{
    DataFrame, EngineError, Series, height, names_distinct, names_unique, same_schema, schema_of,
    schema_of_columns,
};

verus! {

/// The values of column `j` of every frame, stacked in input order.
pub open spec fn stacked_column(dfs: Seq<DataFrame>, j: int) -> Seq<Option<i64>>
    decreases dfs.len(),
{
    if dfs.len() == 0 {
        Seq::empty()
    } else {
        stacked_column(dfs.drop_last(), j) + dfs.last().columns@[j].values@
    }
}

/// Total number of rows of the frames.
pub open spec fn total_height(dfs: Seq<DataFrame>) -> nat
    decreases dfs.len(),
{
    if dfs.len() == 0 {
        0
    } else {
        total_height(dfs.drop_last()) + height(dfs.last())
    }
}

pub open spec fn all_wf(dfs: Seq<DataFrame>) -> bool {
    forall|i: int| 0 <= i < dfs.len() ==> (#[trigger] dfs[i]).wf()
}

/// Every frame has the schema of the first.
pub open spec fn schemas_agree(dfs: Seq<DataFrame>) -> bool {
    forall|i: int| 0 <= i < dfs.len() ==> schema_of(#[trigger] dfs[i]) == schema_of(dfs[0])
}

/// `r` holds the columns of the first frame with the rows of all frames
/// appended one frame after another.
pub open spec fn is_row_stack(dfs: Seq<DataFrame>, r: DataFrame) -> bool {
    &&& schema_of(r) == schema_of(dfs[0])
    &&& forall|j: int|
        0 <= j < r.columns@.len() ==> (#[trigger] r.columns@[j]).values@ == stacked_column(dfs, j)
}

/// Stacking is associative: stacking a joined sequence joins the stacks.
pub proof fn lemma_stacked_split(a: Seq<DataFrame>, b: Seq<DataFrame>, j: int)
    ensures
        stacked_column(a + b, j) == stacked_column(a, j) + stacked_column(b, j),
    decreases b.len(),
{
    if b.len() == 0 {
        assert(a + b =~= a);
        assert(stacked_column(b, j) =~= Seq::empty());
        assert(stacked_column(a, j) + stacked_column(b, j) =~= stacked_column(a, j));
    } else {
        assert((a + b).drop_last() =~= a + b.drop_last());
        assert((a + b).last() == b.last());
        lemma_stacked_split(a, b.drop_last(), j);
        assert(stacked_column(a + b, j) =~= stacked_column(a, j) + stacked_column(b, j));
    }
}

/// Every stacked column of same-schema well-formed frames has the total height.
pub proof fn lemma_stacked_len(dfs: Seq<DataFrame>, j: int)
    requires
        dfs.len() > 0,
        all_wf(dfs),
        schemas_agree(dfs),
        0 <= j < dfs[0].columns@.len(),
    ensures
        stacked_column(dfs, j).len() == total_height(dfs),
    decreases dfs.len(),
{
    let last = dfs.last();
    assert(dfs[dfs.len() - 1] == last);
    assert(schema_of(last).len() == schema_of(dfs[0]).len());
    assert(last.wf());
    assert(last.columns@[j].values@.len() == last.columns@[0].values@.len());
    if dfs.len() > 1 {
        let d = dfs.drop_last();
        assert forall|i: int| 0 <= i < d.len() implies schema_of(#[trigger] d[i]) == schema_of(d[0]) by {
            assert(d[i] == dfs[i]);
        }
        assert forall|i: int| 0 <= i < d.len() implies (#[trigger] d[i]).wf() by {
            assert(d[i] == dfs[i]);
        }
        lemma_stacked_len(d, j);
    } else {
        assert(dfs.drop_last().len() == 0);
    }
}

/// A frame with the columns of `df` and no rows.
pub fn empty_like(df: &DataFrame) -> (r: DataFrame)
    ensures
        schema_of(r) == schema_of(*df),
        forall|j: int| 0 <= j < r.columns@.len() ==> (#[trigger] r.columns@[j]).values@.len() == 0,
{
    let mut cols: Vec<Series> = Vec::new();
    let n = df.columns.len();
    let mut j: usize = 0;
    while j < n
        invariant
            n == df.columns@.len(),
            j <= n,
            cols@.len() == j,
            forall|k: int|
                0 <= k < j ==> (#[trigger] cols@[k]).name@ == df.columns@[k].name@ && cols@[k].dtype
                    == df.columns@[k].dtype,
            forall|k: int| 0 <= k < j ==> (#[trigger] cols@[k]).values@.len() == 0,
        decreases n - j,
    {
        let s = Series {
            name: df.columns[j].name.clone(),
            dtype: df.columns[j].dtype,
            values: Vec::new(),
        };
        cols.push(s);
        j += 1;
    }
    let r = DataFrame { columns: cols };
    assert(schema_of(r) =~= schema_of(*df));
    r
}

/// Appends the rows of `other` below those of `acc`.
pub fn vstack(acc: DataFrame, other: DataFrame) -> (r: DataFrame)
    requires
        schema_of(acc) == schema_of(other),
    ensures
        schema_of(r) == schema_of(acc),
        forall|j: int|
            0 <= j < r.columns@.len() ==> (#[trigger] r.columns@[j]).values@
                == acc.columns@[j].values@ + other.columns@[j].values@,
{
    let ghost l0 = acc.columns@;
    let ghost r0 = other.columns@;
    let mut left = acc.columns;
    let mut right = other.columns;
    let n = left.len();
    assert(schema_of_columns(l0).len() == schema_of_columns(r0).len());
    let mut out: Vec<Series> = Vec::new();
    while left.len() > 0
        invariant
            n == l0.len(),
            n == r0.len(),
            out@.len() <= n,
            left@ == l0.subrange(out@.len() as int, n as int),
            right@ == r0.subrange(out@.len() as int, n as int),
            forall|k: int|
                0 <= k < out@.len() ==> (#[trigger] out@[k]).name@ == l0[k].name@ && out@[k].dtype
                    == l0[k].dtype,
            forall|k: int|
                0 <= k < out@.len() ==> (#[trigger] out@[k]).values@ == l0[k].values@
                    + r0[k].values@,
        decreases left@.len(),
    {
        let ghost k = out@.len() as int;
        let mut a = left.remove(0);
        let mut b = right.remove(0);
        assert(a == l0[k]);
        assert(b == r0[k]);
        a.values.append(&mut b.values);
        out.push(a);
        assert(left@ =~= l0.subrange(out@.len() as int, n as int));
        assert(right@ =~= r0.subrange(out@.len() as int, n as int));
    }
    let r = DataFrame { columns: out };
    assert(schema_of(r) =~= schema_of_columns(l0));
    r
}

/// `p` has the schema of `first` and holds the rows of `dfs[s..e]`, stacked.
pub open spec fn holds_rows(p: DataFrame, first: DataFrame, dfs: Seq<DataFrame>, s: int, e: int) -> bool {
    &&& schema_of(p) == schema_of(first)
    &&& forall|j: int|
        0 <= j < p.columns@.len() ==> (#[trigger] p.columns@[j]).values@ == stacked_column(
            dfs.subrange(s, e),
            j,
        )
}

proof fn lemma_holds_rows_extend(p: DataFrame, q: DataFrame, r: DataFrame, first: DataFrame, dfs: Seq<DataFrame>, s: int, m: int, e: int)
    requires
        0 <= s <= m <= e <= dfs.len(),
        holds_rows(p, first, dfs, s, m),
        holds_rows(q, first, dfs, m, e),
        schema_of(r) == schema_of(p),
        forall|j: int|
            0 <= j < r.columns@.len() ==> (#[trigger] r.columns@[j]).values@
                == p.columns@[j].values@ + q.columns@[j].values@,
    ensures
        holds_rows(r, first, dfs, s, e),
{
    assert(dfs.subrange(s, m) + dfs.subrange(m, e) =~= dfs.subrange(s, e));
    assert forall|j: int| 0 <= j < r.columns@.len() implies (#[trigger] r.columns@[j]).values@
        == stacked_column(dfs.subrange(s, e), j) by {
        assert(schema_of(r).len() == schema_of(q).len());
        assert(schema_of(r).len() == schema_of(p).len());
        lemma_stacked_split(dfs.subrange(s, m), dfs.subrange(m, e), j);
    }
}

proof fn lemma_holds_rows_one(df: DataFrame, first: DataFrame, dfs: Seq<DataFrame>, i: int)
    requires
        0 <= i < dfs.len(),
        df == dfs[i],
        schema_of(df) == schema_of(first),
    ensures
        holds_rows(df, first, dfs, i, i + 1),
{
    assert forall|j: int| 0 <= j < df.columns@.len() implies (#[trigger] df.columns@[j]).values@
        == stacked_column(dfs.subrange(i, i + 1), j) by {
        let one = dfs.subrange(i, i + 1);
        assert(one.drop_last().len() == 0);
        assert(one.last() == df);
        assert(stacked_column(one.drop_last(), j) =~= Seq::empty());
        assert(stacked_column(one, j) =~= df.columns@[j].values@);
    }
}

/// Row-stacks the frames, folding contiguous runs of `chunk` frames from an
/// empty frame of the common schema and then merging the partial results in
/// input order. The result does not depend on `chunk`.
pub fn concat_df_chunked(dfs: Vec<DataFrame>, chunk: usize) -> (r: Result<DataFrame, EngineError>)
    requires
        all_wf(dfs@),
    ensures
        dfs@.len() == 0 ==> r == Err::<DataFrame, EngineError>(EngineError::EmptySequence),
        dfs@.len() > 0 && !schemas_agree(dfs@) ==> r == Err::<DataFrame, EngineError>(
            EngineError::SchemaMismatch,
        ),
        dfs@.len() > 0 && schemas_agree(dfs@) ==> (r matches Ok(df) && is_row_stack(dfs@, df)
            && df.wf()),
{
    let n = dfs.len();
    if n == 0 {
        return Err(EngineError::EmptySequence);
    }
    let mut i: usize = 1;
    while i < n
        invariant
            n == dfs@.len(),
            1 <= i <= n,
            forall|k: int| 0 <= k < i ==> schema_of(#[trigger] dfs@[k]) == schema_of(dfs@[0]),
        decreases n - i,
    {
        if !same_schema(&dfs[i].columns, &dfs[0].columns) {
            return Err(EngineError::SchemaMismatch);
        }
        i += 1;
    }
    let ghost all = dfs@;
    let ghost first = dfs@[0];
    let identity = empty_like(&dfs[0]);
    proof {
        assert(all.subrange(0, 0).len() == 0);
        assert forall|j: int| 0 <= j < identity.columns@.len() implies (#[trigger] identity.columns@[j]).values@
            == stacked_column(all.subrange(0, 0), j) by {
            assert(identity.columns@[j].values@ =~= Seq::empty());
        }
    }
    let step: usize = if chunk == 0 { 1 } else { chunk };
    let mut rest = dfs;
    let mut partials: Vec<DataFrame> = Vec::new();
    let ghost mut starts: Seq<int> = seq![0int];
    while rest.len() > 0
        invariant
            all.len() == n,
            n > 0,
            first == all[0],
            schemas_agree(all),
            step > 0,
            holds_rows(identity, first, all, 0, 0),
            starts.len() == partials@.len() + 1,
            starts[0] == 0,
            rest@.len() <= n,
            starts.last() == n - rest@.len(),
            rest@ == all.subrange(n - rest@.len(), n as int),
            forall|c: int| 0 <= c < partials@.len() ==> 0 <= #[trigger] starts[c] <= starts[c + 1] <= n,
            forall|c: int|
                0 <= c < partials@.len() ==> holds_rows(
                    #[trigger] partials@[c],
                    first,
                    all,
                    starts[c],
                    starts[c + 1],
                ),
        decreases rest@.len(),
    {
        let ghost start = n - rest@.len();
        let mut acc = empty_like(&identity);
        assert(holds_rows(acc, first, all, start, start)) by {
            assert forall|j: int| 0 <= j < acc.columns@.len() implies (#[trigger] acc.columns@[j]).values@
                == stacked_column(all.subrange(start, start), j) by {
                assert(all.subrange(start, start).len() == 0);
                assert(acc.columns@[j].values@ =~= Seq::empty());
            }
        }
        let mut taken: usize = 0;
        while taken < step && rest.len() > 0
            invariant
                all.len() == n,
                schemas_agree(all),
                first == all[0],
                0 <= start <= n,
                rest@.len() <= n,
                n - rest@.len() == start + taken,
                rest@ == all.subrange(n - rest@.len(), n as int),
                holds_rows(acc, first, all, start, start + taken),
            decreases rest@.len(),
        {
            let df = rest.remove(0);
            let ghost at = start + taken;
            assert(df == all[at]);
            assert(schema_of(all[at]) == schema_of(all[0]));
            proof {
                lemma_holds_rows_one(df, first, all, at);
            }
            let ghost a0 = acc;
            acc = vstack(acc, df);
            proof {
                lemma_holds_rows_extend(a0, df, acc, first, all, start, at, at + 1);
            }
            assert(rest@ =~= all.subrange(n - rest@.len(), n as int));
            taken += 1;
        }
        partials.push(acc);
        proof {
            starts = starts.push(start + taken);
        }
    }
    let total = partials.len();
    let ghost p0 = partials@;
    let mut result = identity;
    let mut c: usize = 0;
    while partials.len() > 0
        invariant
            total == p0.len(),
            c + partials@.len() == total,
            partials@ == p0.subrange(c as int, total as int),
            starts.len() == total + 1,
            starts[0] == 0,
            starts.last() == n,
            all.len() == n,
            forall|k: int| 0 <= k < total ==> 0 <= #[trigger] starts[k] <= starts[k + 1] <= n,
            forall|k: int|
                0 <= k < total ==> holds_rows(#[trigger] p0[k], first, all, starts[k], starts[k + 1]),
            holds_rows(result, first, all, 0, starts[c as int]),
        decreases partials@.len(),
    {
        let p = partials.remove(0);
        assert(p == p0[c as int]);
        let ghost r0 = result;
        result = vstack(result, p);
        proof {
            assert(0 <= starts[c as int] <= starts[c + 1] <= n);
            lemma_holds_rows_extend(r0, p, result, first, all, 0, starts[c as int], starts[c + 1]);
        }
        c += 1;
        assert(partials@ =~= p0.subrange(c as int, total as int));
    }
    proof {
        assert(all.subrange(0, n as int) =~= all);
        assert(first.wf());
        assert forall|j: int| 0 <= j < result.columns@.len() implies (#[trigger] result.columns@[j]).values@.len()
            == result.columns@[0].values@.len() by {
            assert(schema_of(result).len() == schema_of(first).len());
            lemma_stacked_len(all, j);
            lemma_stacked_len(all, 0);
        }
        assert forall|a: int, b: int|
            0 <= a < result.columns@.len() && 0 <= b < result.columns@.len() && a != b
            implies #[trigger] result.columns@[a].name@ != #[trigger] result.columns@[b].name@ by {
            assert(schema_of(result)[a] == schema_of(first)[a]);
            assert(schema_of(result)[b] == schema_of(first)[b]);
        }
    }
    Ok(result)
}

/// Number of contiguous runs that the frames are split into for folding.
pub const FOLD_RUNS: usize = 4;

/// Row-stacks a non-empty sequence of same-schema frames in input order.
pub fn concat_df(dfs: Vec<DataFrame>) -> (r: Result<DataFrame, EngineError>)
    requires
        all_wf(dfs@),
    ensures
        dfs@.len() == 0 ==> r == Err::<DataFrame, EngineError>(EngineError::EmptySequence),
        dfs@.len() > 0 && !schemas_agree(dfs@) ==> r == Err::<DataFrame, EngineError>(
            EngineError::SchemaMismatch,
        ),
        dfs@.len() > 0 && schemas_agree(dfs@) ==> (r matches Ok(df) && is_row_stack(dfs@, df)
            && df.wf()),
{
    let chunk = dfs.len() / FOLD_RUNS + 1;
    concat_df_chunked(dfs, chunk)
}

/// Any two row stacks of the same frames agree, column for column; so the
/// result of the fold does not depend on how the frames were split into runs.
pub proof fn lemma_row_stack_unique(dfs: Seq<DataFrame>, r1: DataFrame, r2: DataFrame)
    requires
        dfs.len() > 0,
        is_row_stack(dfs, r1),
        is_row_stack(dfs, r2),
    ensures
        schema_of(r1) == schema_of(r2),
        r1.columns@.len() == r2.columns@.len(),
        forall|j: int|
            0 <= j < r1.columns@.len() ==> (#[trigger] r1.columns@[j]).values@
                == r2.columns@[j].values@,
{
    assert(schema_of(r1).len() == schema_of(r2).len());
}

/// Row-stacking a single frame gives back that frame's columns and values.
pub proof fn lemma_row_stack_single(df: DataFrame, r: DataFrame)
    requires
        is_row_stack(seq![df], r),
    ensures
        schema_of(r) == schema_of(df),
        r.columns@.len() == df.columns@.len(),
        forall|j: int|
            0 <= j < r.columns@.len() ==> (#[trigger] r.columns@[j]).values@
                == df.columns@[j].values@,
{
    let one = seq![df];
    assert(one[0] == df);
    assert(schema_of(r).len() == schema_of(df).len());
    assert forall|j: int| 0 <= j < r.columns@.len() implies (#[trigger] r.columns@[j]).values@
        == df.columns@[j].values@ by {
        assert(one.drop_last().len() == 0);
        assert(one.last() == df);
        assert(stacked_column(one.drop_last(), j) =~= Seq::empty());
        assert(stacked_column(one, j) =~= df.columns@[j].values@);
    }
}

/// The columns of all frames, in input order.
pub open spec fn joined_columns(dfs: Seq<DataFrame>) -> Seq<Series>
    decreases dfs.len(),
{
    if dfs.len() == 0 {
        Seq::empty()
    } else {
        joined_columns(dfs.drop_last()) + dfs.last().columns@
    }
}

/// Every frame has the height of the first.
pub open spec fn heights_agree(dfs: Seq<DataFrame>) -> bool {
    forall|i: int| 0 <= i < dfs.len() ==> height(#[trigger] dfs[i]) == height(dfs[0])
}

/// Places the frames side by side: the columns of all frames in input order.
pub fn hor_concat_df(dfs: Vec<DataFrame>) -> (r: Result<DataFrame, EngineError>)
    requires
        all_wf(dfs@),
    ensures
        dfs@.len() == 0 ==> r == Err::<DataFrame, EngineError>(EngineError::EmptySequence),
        dfs@.len() > 0 && !heights_agree(dfs@) ==> r == Err::<DataFrame, EngineError>(
            EngineError::RowCountMismatch,
        ),
        dfs@.len() > 0 && heights_agree(dfs@) && !names_unique(joined_columns(dfs@)) ==> r
            == Err::<DataFrame, EngineError>(EngineError::DuplicateColumnName),
        dfs@.len() > 0 && heights_agree(dfs@) && names_unique(joined_columns(dfs@)) ==> (r matches Ok(
            df,
        ) && df.columns@ == joined_columns(dfs@) && df.wf()),
{
    let n = dfs.len();
    if n == 0 {
        return Err(EngineError::EmptySequence);
    }
    let h = dfs[0].height();
    let mut i: usize = 1;
    while i < n
        invariant
            n == dfs@.len(),
            1 <= i <= n,
            h == height(dfs@[0]),
            forall|k: int| 0 <= k < i ==> height(#[trigger] dfs@[k]) == h,
        decreases n - i,
    {
        if dfs[i].height() != h {
            return Err(EngineError::RowCountMismatch);
        }
        i += 1;
    }
    let ghost all = dfs@;
    let mut rest = dfs;
    let mut out: Vec<Series> = Vec::new();
    proof {
        assert(all.subrange(0, 0).len() == 0);
        assert(joined_columns(all.subrange(0, 0)) =~= Seq::empty());
    }
    while rest.len() > 0
        invariant
            all.len() == n,
            all_wf(all),
            heights_agree(all),
            h == height(all[0]),
            rest@.len() <= n,
            rest@ == all.subrange(n - rest@.len(), n as int),
            out@ == joined_columns(all.subrange(0, n - rest@.len())),
            forall|c: int| 0 <= c < out@.len() ==> (#[trigger] out@[c]).values@.len() == h,
        decreases rest@.len(),
    {
        let ghost k = n - rest@.len();
        let df = rest.remove(0);
        assert(df == all[k]);
        assert(df.wf());
        assert(height(df) == h);
        let mut cols = df.columns;
        let ghost o0 = out@;
        out.append(&mut cols);
        proof {
            let pre = all.subrange(0, k + 1);
            assert(pre.drop_last() =~= all.subrange(0, k));
            assert(pre.last() == df);
            assert forall|c: int| 0 <= c < out@.len() implies (#[trigger] out@[c]).values@.len() == h by {
                if c >= o0.len() {
                    assert(out@[c] == df.columns@[c - o0.len()]);
                    assert(df.columns@[c - o0.len()].values@.len() == df.columns@[0].values@.len());
                } else {
                    assert(out@[c] == o0[c]);
                }
            }
        }
        assert(rest@ =~= all.subrange(n - rest@.len(), n as int));
    }
    assert(all.subrange(0, n as int) =~= all);
    if !names_distinct(&out) {
        return Err(EngineError::DuplicateColumnName);
    }
    Ok(DataFrame { columns: out })
}

} // verus!
