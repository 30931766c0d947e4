//! Row-stacking of frames whose schemas differ: the schemas are joined and
//! each frame's missing columns read as nulls.
use vstd::prelude::*;
use crate::frame::{DataFrame, DataType, EngineError, Series, height, schema_of};
use crate::concat::{all_wf, total_height};

verus! {

/// Some entry of the schema carries this name.
pub open spec fn has_name(schema: Seq<(Seq<char>, DataType)>, name: Seq<char>) -> bool {
    exists|k: int| 0 <= k < schema.len() && (#[trigger] schema[k]).0 == name
}

/// Adds the columns to the schema in order, skipping names already present.
pub open spec fn add_columns(acc: Seq<(Seq<char>, DataType)>, cols: Seq<Series>) -> Seq<
    (Seq<char>, DataType),
>
    decreases cols.len(),
{
    if cols.len() == 0 {
        acc
    } else {
        let prev = add_columns(acc, cols.drop_last());
        if has_name(prev, cols.last().name@) {
            prev
        } else {
            prev.push((cols.last().name@, cols.last().dtype))
        }
    }
}

/// The union of the frames' schemas, in order of first appearance, each name
/// with the type of its first occurrence.
pub open spec fn union_schema(dfs: Seq<DataFrame>) -> Seq<(Seq<char>, DataType)>
    decreases dfs.len(),
{
    if dfs.len() == 0 {
        Seq::empty()
    } else {
        add_columns(union_schema(dfs.drop_last()), dfs.last().columns@)
    }
}

/// Every column's type is the type that the schema gives its name.
pub open spec fn types_agree(dfs: Seq<DataFrame>, schema: Seq<(Seq<char>, DataType)>) -> bool {
    forall|i: int, a: int, k: int|
        0 <= i < dfs.len() && 0 <= a < dfs[i].columns@.len() && 0 <= k < schema.len()
            && (#[trigger] dfs[i].columns@[a]).name@ == (#[trigger] schema[k]).0 ==> dfs[i].columns@[a].dtype
            == schema[k].1
}

/// The frame's column of that name, or nulls for each of its rows.
pub open spec fn widened(df: DataFrame, name: Seq<char>) -> Seq<Option<i64>> {
    if exists|a: int| 0 <= a < df.columns@.len() && (#[trigger] df.columns@[a]).name@ == name {
        let a = choose|a: int| 0 <= a < df.columns@.len() && (#[trigger] df.columns@[a]).name@ == name;
        df.columns@[a].values@
    } else {
        Seq::new(height(df), |r: int| None)
    }
}

/// The widened column `name` of every frame, stacked in input order.
pub open spec fn diag_stacked(dfs: Seq<DataFrame>, name: Seq<char>) -> Seq<Option<i64>>
    decreases dfs.len(),
{
    if dfs.len() == 0 {
        Seq::empty()
    } else {
        diag_stacked(dfs.drop_last(), name) + widened(dfs.last(), name)
    }
}

pub open spec fn schema_names_unique(schema: Seq<(Seq<char>, DataType)>) -> bool {
    forall|a: int, b: int|
        0 <= a < schema.len() && 0 <= b < schema.len() && a != b ==> (#[trigger] schema[a]).0
            != (#[trigger] schema[b]).0
}

spec fn model_of(names: Seq<String>, types: Seq<DataType>) -> Seq<(Seq<char>, DataType)> {
    Seq::new(names.len(), |k: int| (names[k]@, types[k]))
}

/// Position of the name among `names`, if present.
fn find_name(names: &Vec<String>, name: &String) -> (r: Option<usize>)
    ensures
        r matches Some(k) ==> k < names@.len() && names@[k as int]@ == name@,
        r is None ==> forall|k: int| 0 <= k < names@.len() ==> (#[trigger] names@[k])@ != name@,
{
    let mut k: usize = 0;
    while k < names.len()
        invariant
            k <= names@.len(),
            forall|q: int| 0 <= q < k ==> (#[trigger] names@[q])@ != name@,
        decreases names@.len() - k,
    {
        if names[k] == *name {
            return Some(k);
        }
        k += 1;
    }
    None
}

/// Position of the column of that name in the frame, if present.
fn find_column(df: &DataFrame, name: &String) -> (r: Option<usize>)
    ensures
        r matches Some(a) ==> a < df.columns@.len() && df.columns@[a as int].name@ == name@,
        r is None ==> forall|a: int| 0 <= a < df.columns@.len() ==> (#[trigger] df.columns@[a]).name@ != name@,
{
    let mut a: usize = 0;
    while a < df.columns.len()
        invariant
            a <= df.columns@.len(),
            forall|q: int| 0 <= q < a ==> (#[trigger] df.columns@[q]).name@ != name@,
        decreases df.columns@.len() - a,
    {
        if df.columns[a].name == *name {
            return Some(a);
        }
        a += 1;
    }
    None
}

/// Computes the union of the frames' schemas as parallel name and type vectors.
fn union_of(dfs: &Vec<DataFrame>) -> (r: (Vec<String>, Vec<DataType>))
    ensures
        r.0@.len() == r.1@.len(),
        model_of(r.0@, r.1@) == union_schema(dfs@),
        schema_names_unique(union_schema(dfs@)),
{
    let mut names: Vec<String> = Vec::new();
    let mut types: Vec<DataType> = Vec::new();
    let n = dfs.len();
    let mut i: usize = 0;
    assert(model_of(names@, types@) =~= union_schema(dfs@.subrange(0, 0)));
    while i < n
        invariant
            n == dfs@.len(),
            i <= n,
            names@.len() == types@.len(),
            model_of(names@, types@) == union_schema(dfs@.subrange(0, i as int)),
            schema_names_unique(model_of(names@, types@)),
        decreases n - i,
    {
        let m = dfs[i].columns.len();
        let ghost base = union_schema(dfs@.subrange(0, i as int));
        let ghost cols = dfs@[i as int].columns@;
        let mut a: usize = 0;
        assert(cols.subrange(0, 0) =~= Seq::<Series>::empty());
        while a < m
            invariant
                n == dfs@.len(),
                i < n,
                m == cols.len(),
                cols == dfs@[i as int].columns@,
                a <= m,
                names@.len() == types@.len(),
                model_of(names@, types@) == add_columns(base, cols.subrange(0, a as int)),
                schema_names_unique(model_of(names@, types@)),
            decreases m - a,
        {
            let ghost prev = model_of(names@, types@);
            let col = &dfs[i].columns[a];
            assert(cols.subrange(0, a + 1).drop_last() =~= cols.subrange(0, a as int));
            assert(cols.subrange(0, a + 1).last() == *col);
            match find_name(&names, &col.name) {
                Some(k) => {
                    assert(prev[k as int].0 == col.name@);
                }
                None => {
                    assert(!has_name(prev, col.name@)) by {
                        if has_name(prev, col.name@) {
                            let k = choose|k: int| 0 <= k < prev.len() && (#[trigger] prev[k]).0 == col.name@;
                            assert(names@[k]@ != col.name@);
                        }
                    }
                    names.push(col.name.clone());
                    types.push(col.dtype);
                    assert(model_of(names@, types@) =~= prev.push((col.name@, col.dtype)));
                }
            }
            a += 1;
        }
        proof {
            assert(cols.subrange(0, m as int) =~= cols);
            let pre = dfs@.subrange(0, i + 1);
            assert(pre.drop_last() =~= dfs@.subrange(0, i as int));
            assert(pre.last() == dfs@[i as int]);
        }
        i += 1;
    }
    assert(dfs@.subrange(0, n as int) =~= dfs@);
    (names, types)
}

/// Tests that every column's type is the type the schema gives its name.
fn check_types(dfs: &Vec<DataFrame>, names: &Vec<String>, types: &Vec<DataType>) -> (r: bool)
    requires
        names@.len() == types@.len(),
        schema_names_unique(model_of(names@, types@)),
    ensures
        r == types_agree(dfs@, model_of(names@, types@)),
{
    let ghost sch = model_of(names@, types@);
    let n = dfs.len();
    let mut i: usize = 0;
    while i < n
        invariant
            n == dfs@.len(),
            i <= n,
            names@.len() == types@.len(),
            sch == model_of(names@, types@),
            schema_names_unique(sch),
            forall|i2: int, a: int, k: int|
                0 <= i2 < i && 0 <= a < dfs@[i2].columns@.len() && 0 <= k < sch.len()
                    && (#[trigger] dfs@[i2].columns@[a]).name@ == (#[trigger] sch[k]).0 ==> dfs@[i2].columns@[a].dtype
                    == sch[k].1,
        decreases n - i,
    {
        let m = dfs[i].columns.len();
        let mut a: usize = 0;
        while a < m
            invariant
                n == dfs@.len(),
                i < n,
                m == dfs@[i as int].columns@.len(),
                a <= m,
                names@.len() == types@.len(),
                sch == model_of(names@, types@),
                schema_names_unique(sch),
                forall|i2: int, a2: int, k: int|
                    0 <= i2 < i && 0 <= a2 < dfs@[i2].columns@.len() && 0 <= k < sch.len()
                        && (#[trigger] dfs@[i2].columns@[a2]).name@ == (#[trigger] sch[k]).0 ==> dfs@[i2].columns@[a2].dtype
                        == sch[k].1,
                forall|a2: int, k: int|
                    0 <= a2 < a && 0 <= k < sch.len()
                        && (#[trigger] dfs@[i as int].columns@[a2]).name@ == (#[trigger] sch[k]).0 ==> dfs@[i as int].columns@[a2].dtype
                        == sch[k].1,
            decreases m - a,
        {
            let col = &dfs[i].columns[a];
            match find_name(names, &col.name) {
                Some(k) => {
                    if types[k] != col.dtype {
                        assert(sch[k as int].0 == col.name@);
                        return false;
                    }
                    assert forall|k2: int| 0 <= k2 < sch.len() && col.name@ == (#[trigger] sch[k2]).0
                        implies col.dtype == sch[k2].1 by {
                        if k2 != k {
                            assert(sch[k as int].0 == col.name@);
                        }
                    }
                }
                None => {
                    assert forall|k2: int| 0 <= k2 < sch.len() implies col.name@ != (#[trigger] sch[k2]).0 by {
                        assert(names@[k2]@ != col.name@);
                    }
                }
            }
            a += 1;
        }
        i += 1;
    }
    true
}

/// Stacks the column `name` of every frame, with nulls where a frame lacks it.
fn stack_widened(dfs: &Vec<DataFrame>, name: &String) -> (r: Vec<Option<i64>>)
    requires
        all_wf(dfs@),
    ensures
        r@ == diag_stacked(dfs@, name@),
        r@.len() == total_height(dfs@),
{
    let mut out: Vec<Option<i64>> = Vec::new();
    let n = dfs.len();
    let mut i: usize = 0;
    assert(dfs@.subrange(0, 0).len() == 0);
    assert(diag_stacked(dfs@.subrange(0, 0), name@) =~= Seq::empty());
    while i < n
        invariant
            n == dfs@.len(),
            i <= n,
            all_wf(dfs@),
            out@ == diag_stacked(dfs@.subrange(0, i as int), name@),
            out@.len() == total_height(dfs@.subrange(0, i as int)),
        decreases n - i,
    {
        let ghost base = out@;
        let df = &dfs[i];
        assert(df.wf());
        match find_column(df, name) {
            Some(a) => {
                let src = &df.columns[a].values;
                let len = src.len();
                let mut q: usize = 0;
                while q < len
                    invariant
                        len == src@.len(),
                        q <= len,
                        out@ == base + src@.subrange(0, q as int),
                    decreases len - q,
                {
                    out.push(src[q]);
                    assert(out@ =~= base + src@.subrange(0, q + 1));
                    q += 1;
                }
                proof {
                    assert(src@.subrange(0, len as int) =~= src@);
                    let a2 = choose|a2: int| 0 <= a2 < df.columns@.len() && (#[trigger] df.columns@[a2]).name@ == name@;
                    assert(a2 == a as int);
                    assert(widened(*df, name@) == src@);
                    assert(src@.len() == df.columns@[0].values@.len());
                }
            }
            None => {
                let h = df.height();
                let mut q: usize = 0;
                while q < h
                    invariant
                        q <= h,
                        out@ == base + Seq::new(q as nat, |r: int| None::<i64>),
                    decreases h - q,
                {
                    out.push(None);
                    assert(out@ =~= base + Seq::new((q + 1) as nat, |r: int| None::<i64>));
                    q += 1;
                }
                assert(widened(*df, name@) =~= Seq::new(h as nat, |r: int| None::<i64>));
            }
        }
        proof {
            let pre = dfs@.subrange(0, i + 1);
            assert(pre.drop_last() =~= dfs@.subrange(0, i as int));
            assert(pre.last() == dfs@[i as int]);
        }
        i += 1;
    }
    assert(dfs@.subrange(0, n as int) =~= dfs@);
    out
}

/// Row-stacks frames of differing schemas. The result's schema is the union
/// of theirs in order of first appearance; each frame contributes nulls to
/// the columns it lacks.
pub fn diag_concat_df(dfs: Vec<DataFrame>) -> (r: Result<DataFrame, EngineError>)
    requires
        all_wf(dfs@),
    ensures
        dfs@.len() == 0 ==> r == Err::<DataFrame, EngineError>(EngineError::EmptySequence),
        dfs@.len() > 0 && !types_agree(dfs@, union_schema(dfs@)) ==> r == Err::<
            DataFrame,
            EngineError,
        >(EngineError::DtypeConflict),
        dfs@.len() > 0 && types_agree(dfs@, union_schema(dfs@)) ==> (r matches Ok(df) && schema_of(
            df,
        ) == union_schema(dfs@) && df.wf() && forall|j: int|
            0 <= j < df.columns@.len() ==> (#[trigger] df.columns@[j]).values@ == diag_stacked(
                dfs@,
                union_schema(dfs@)[j].0,
            )),
{
    if dfs.len() == 0 {
        return Err(EngineError::EmptySequence);
    }
    let (names, types) = union_of(&dfs);
    if !check_types(&dfs, &names, &types) {
        return Err(EngineError::DtypeConflict);
    }
    let ghost sch = union_schema(dfs@);
    let m = names.len();
    let mut cols: Vec<Series> = Vec::new();
    let mut k: usize = 0;
    while k < m
        invariant
            m == names@.len(),
            m == types@.len(),
            sch == model_of(names@, types@),
            all_wf(dfs@),
            k <= m,
            cols@.len() == k,
            forall|c: int|
                0 <= c < k ==> (#[trigger] cols@[c]).name@ == sch[c].0 && cols@[c].dtype == sch[c].1
                    && cols@[c].values@ == diag_stacked(dfs@, sch[c].0) && cols@[c].values@.len()
                    == total_height(dfs@),
        decreases m - k,
    {
        let values = stack_widened(&dfs, &names[k]);
        cols.push(Series { name: names[k].clone(), dtype: types[k], values });
        k += 1;
    }
    let df = DataFrame { columns: cols };
    assert(schema_of(df) =~= sch);
    assert forall|a: int, b: int|
        0 <= a < df.columns@.len() && 0 <= b < df.columns@.len() && a != b implies #[trigger] df.columns@[a].name@
        != #[trigger] df.columns@[b].name@ by {
        assert(sch[a].0 != sch[b].0);
    }
    Ok(df)
}

pub proof fn lemma_diag_split(a: Seq<DataFrame>, b: Seq<DataFrame>, name: Seq<char>)
    ensures
        diag_stacked(a + b, name) == diag_stacked(a, name) + diag_stacked(b, name),
    decreases b.len(),
{
    if b.len() == 0 {
        assert(a + b =~= a);
        assert(diag_stacked(a, name) + diag_stacked(b, name) =~= diag_stacked(a, name));
    } else {
        assert((a + b).drop_last() =~= a + b.drop_last());
        assert((a + b).last() == b.last());
        lemma_diag_split(a, b.drop_last(), name);
        assert(diag_stacked(a + b, name) =~= diag_stacked(a, name) + diag_stacked(b, name));
    }
}

pub proof fn lemma_diag_len(dfs: Seq<DataFrame>, name: Seq<char>)
    requires
        all_wf(dfs),
    ensures
        diag_stacked(dfs, name).len() == total_height(dfs),
    decreases dfs.len(),
{
    if dfs.len() > 0 {
        let d = dfs.drop_last();
        assert forall|i: int| 0 <= i < d.len() implies (#[trigger] d[i]).wf() by {
            assert(d[i] == dfs[i]);
        }
        lemma_diag_len(d, name);
        let last = dfs.last();
        assert(dfs[dfs.len() - 1] == last);
        if exists|a: int| 0 <= a < last.columns@.len() && (#[trigger] last.columns@[a]).name@ == name {
            let a = choose|a: int| 0 <= a < last.columns@.len() && (#[trigger] last.columns@[a]).name@ == name;
            assert(last.columns@[a].values@.len() == last.columns@[0].values@.len());
        }
    }
}

/// In the diagonal stack of column `name`, the rows contributed by a frame
/// that lacks that column are all null.
pub proof fn lemma_diag_absent_is_null(dfs: Seq<DataFrame>, i: int, name: Seq<char>)
    requires
        all_wf(dfs),
        0 <= i < dfs.len(),
        forall|a: int| 0 <= a < dfs[i].columns@.len() ==> (#[trigger] dfs[i].columns@[a]).name@ != name,
    ensures
        diag_stacked(dfs, name).subrange(
            total_height(dfs.subrange(0, i)) as int,
            (total_height(dfs.subrange(0, i)) + height(dfs[i])) as int,
        ) == Seq::new(height(dfs[i]), |r: int| None::<i64>),
{
    let pre = dfs.subrange(0, i);
    let one = dfs.subrange(i, i + 1);
    let post = dfs.subrange(i + 1, dfs.len() as int);
    assert(dfs =~= pre + one + post);
    lemma_diag_split(pre + one, post, name);
    lemma_diag_split(pre, one, name);
    assert forall|k: int| 0 <= k < pre.len() implies (#[trigger] pre[k]).wf() by {
        assert(pre[k] == dfs[k]);
    }
    lemma_diag_len(pre, name);
    assert(one.drop_last().len() == 0);
    assert(one.last() == dfs[i]);
    assert(diag_stacked(one.drop_last(), name) =~= Seq::empty());
    assert(widened(dfs[i], name) =~= Seq::new(height(dfs[i]), |r: int| None::<i64>));
    assert(diag_stacked(one, name) =~= widened(dfs[i], name));
    let whole = diag_stacked(pre, name) + diag_stacked(one, name) + diag_stacked(post, name);
    assert(whole.subrange(
        total_height(pre) as int,
        (total_height(pre) + height(dfs[i])) as int,
    ) =~= Seq::new(height(dfs[i]), |r: int| None::<i64>));
}

} // verus!
