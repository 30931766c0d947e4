//! The columnar data model: typed nullable columns and frames of them.
use vstd::prelude::*;

verus! {

/// Granularity of a temporal column.
#[derive(Clone, Copy, Debug, PartialEq, Eq, Structural)]
pub enum TimeUnit {
    Milliseconds,
    Microseconds,
    Nanoseconds,
}

/// Logical type of a column; every cell is stored as a nullable `i64`.
#[derive(Clone, Copy, Debug, PartialEq, Eq, Structural)]
pub enum DataType {
    Int64,
    Boolean,
    Date,
    Datetime(TimeUnit),
}

/// Error kinds of the engine.
#[derive(Clone, Copy, Debug, PartialEq, Eq, Structural)]
pub enum EngineError {
    EmptySequence,
    SchemaMismatch,
    DtypeConflict,
    RowCountMismatch,
    DuplicateColumnName,
    EmptyExpressionList,
    RangeBoundsInvalid,
    InvalidDurationSpec,
    /// An expression referred to a column that the frame does not hold.
    ColumnNotFound,
    /// Eager evaluation inside an operation failed in the expression engine;
    /// the engine's own failure is carried along.
    EngineEvaluationError(EngineFailure),
}

/// Failures of expression evaluation, as carried by
/// `EngineError::EngineEvaluationError`.
#[derive(Clone, Copy, Debug, PartialEq, Eq, Structural)]
pub enum EngineFailure {
    ColumnNotFound,
    SchemaMismatch,
}

/// A named, typed column of nullable values.
#[derive(Debug)]
pub struct Series {
    pub name: String,
    pub dtype: DataType,
    pub values: Vec<Option<i64>>,
}

/// An ordered sequence of columns.
#[derive(Debug)]
pub struct DataFrame {
    pub columns: Vec<Series>,
}

/// The (name, type) pairs of a sequence of columns, in order.
pub open spec fn schema_of_columns(cols: Seq<Series>) -> Seq<(Seq<char>, DataType)> {
    Seq::new(cols.len(), |j: int| (cols[j].name@, cols[j].dtype))
}

pub open spec fn schema_of(df: DataFrame) -> Seq<(Seq<char>, DataType)> {
    schema_of_columns(df.columns@)
}

/// Number of rows: the length of the first column, zero without columns.
pub open spec fn height(df: DataFrame) -> nat {
    if df.columns@.len() == 0 {
        0
    } else {
        df.columns@[0].values@.len()
    }
}

/// No name occurs twice among the columns.
pub open spec fn names_unique(cols: Seq<Series>) -> bool {
    forall|a: int, b: int|
        0 <= a < cols.len() && 0 <= b < cols.len() && a != b ==> #[trigger] cols[a].name@
            != #[trigger] cols[b].name@
}

/// All columns have one length.
pub open spec fn lengths_equal(cols: Seq<Series>) -> bool {
    forall|j: int|
        0 <= j < cols.len() ==> (#[trigger] cols[j]).values@.len() == cols[0].values@.len()
}

impl DataFrame {
    /// The frame's invariant: equal column lengths and unique names.
    pub open spec fn wf(&self) -> bool {
        lengths_equal(self.columns@) && names_unique(self.columns@)
    }

    /// Builds a frame, refusing columns of differing length and repeated names.
    pub fn new(columns: Vec<Series>) -> (r: Result<DataFrame, EngineError>)
        ensures
            !lengths_equal(columns@) ==> r == Err::<DataFrame, EngineError>(
                EngineError::RowCountMismatch,
            ),
            lengths_equal(columns@) && !names_unique(columns@) ==> r == Err::<
                DataFrame,
                EngineError,
            >(EngineError::DuplicateColumnName),
            lengths_equal(columns@) && names_unique(columns@) ==> (r matches Ok(df) && df.columns
                == columns),
    {
        let n = columns.len();
        let mut j: usize = 0;
        while j < n
            invariant
                n == columns@.len(),
                j <= n,
                forall|k: int| 0 <= k < j ==> (#[trigger] columns@[k]).values@.len() == columns@[0].values@.len(),
            decreases n - j,
        {
            if columns[j].values.len() != columns[0].values.len() {
                return Err(EngineError::RowCountMismatch);
            }
            j += 1;
        }
        if !names_distinct(&columns) {
            return Err(EngineError::DuplicateColumnName);
        }
        Ok(DataFrame { columns })
    }

    /// A frame with no columns and no rows.
    pub fn empty() -> (r: DataFrame)
        ensures
            r.columns@.len() == 0,
            r.wf(),
    {
        DataFrame { columns: Vec::new() }
    }

    pub fn height(&self) -> (r: usize)
        ensures
            r == height(*self),
    {
        if self.columns.len() == 0 {
            0
        } else {
            self.columns[0].values.len()
        }
    }

    pub fn width(&self) -> (r: usize)
        ensures
            r == self.columns@.len(),
    {
        self.columns.len()
    }
}

/// Tests whether the columns' names are pairwise distinct.
pub fn names_distinct(cols: &Vec<Series>) -> (r: bool)
    ensures
        r == names_unique(cols@),
{
    let n = cols.len();
    let mut a: usize = 0;
    while a < n
        invariant
            n == cols@.len(),
            a <= n,
            forall|x: int, y: int|
                0 <= x < a && 0 <= y < n && x != y ==> #[trigger] cols@[x].name@
                    != #[trigger] cols@[y].name@,
        decreases n - a,
    {
        let mut b: usize = 0;
        while b < n
            invariant
                n == cols@.len(),
                a < n,
                b <= n,
                forall|x: int, y: int|
                    0 <= x < a && 0 <= y < n && x != y ==> #[trigger] cols@[x].name@
                        != #[trigger] cols@[y].name@,
                forall|y: int| 0 <= y < b && a != y ==> cols@[a as int].name@ != #[trigger] cols@[y].name@,
            decreases n - b,
        {
            if a != b && cols[a].name == cols[b].name {
                return false;
            }
            b += 1;
        }
        a += 1;
    }
    true
}

/// Tests whether two column sequences have the same names and types in order.
pub fn same_schema(a: &Vec<Series>, b: &Vec<Series>) -> (r: bool)
    ensures
        r == (schema_of_columns(a@) == schema_of_columns(b@)),
{
    if a.len() != b.len() {
        assert(schema_of_columns(a@).len() != schema_of_columns(b@).len());
        return false;
    }
    let n = a.len();
    let mut j: usize = 0;
    while j < n
        invariant
            n == a@.len(),
            n == b@.len(),
            j <= n,
            forall|k: int| 0 <= k < j ==> #[trigger] schema_of_columns(a@)[k] == schema_of_columns(b@)[k],
        decreases n - j,
    {
        if !(a[j].name == b[j].name) || a[j].dtype != b[j].dtype {
            assert(schema_of_columns(a@)[j as int] != schema_of_columns(b@)[j as int]);
            return false;
        }
        j += 1;
    }
    assert(schema_of_columns(a@) =~= schema_of_columns(b@));
    true
}

} // verus!
