//! Composing several expressions into one struct-typed value.
use vstd::prelude::*;
use crate::frame::{DataFrame, DataType, EngineError, EngineFailure};
use crate::reduce::{
    Operand, all_resolve, context_rows, context_rows_of, eval_operands, gather_rows,
    operand_columns, operand_values, row_cells,
};

verus! {

/// A struct expression whose fields are its operands, in order, with an
/// optional target schema of one type per field. It holds no values: it is
/// composed further or materialised with `evaluate`.
#[derive(Debug)]
pub struct StructExpr {
    pub fields: Vec<Operand>,
    pub schema: Option<Vec<DataType>>,
}

/// A materialised struct column.
#[derive(Debug)]
pub struct StructFrame {
    /// Name of the column: the name of the first field.
    pub name: String,
    pub field_names: Vec<String>,
    /// The field values of each row, in field order.
    pub rows: Vec<Vec<Option<i64>>>,
}

/// What `struct_` returns: a materialised frame or an unevaluated expression.
#[derive(Debug)]
pub enum StructValue {
    Frame(StructFrame),
    Lazy(StructExpr),
}

/// The output name of an operand.
pub open spec fn operand_name(e: Operand) -> Seq<char> {
    match e {
        Operand::Column(n) => n@,
        Operand::Literal(n, _) => n@,
    }
}

pub open spec fn literal_of(e: Operand) -> Option<Option<i64>> {
    match e {
        Operand::Column(_) => None,
        Operand::Literal(_, v) => Some(v),
    }
}

/// The type an operand has on the frame: a literal is `Int64`, a column
/// reference has the type of the column of that name.
pub open spec fn operand_dtype(e: Operand, df: DataFrame) -> DataType {
    match e {
        Operand::Column(n) => {
            let a = choose|a: int| 0 <= a < df.columns@.len() && (#[trigger] df.columns@[a]).name@ == n@;
            df.columns@[a].dtype
        },
        Operand::Literal(_, _) => DataType::Int64,
    }
}

/// What can be checked of a target schema before any frame is known: it
/// lists one type per field, and `Int64`, the type of a literal, for each
/// literal field.
pub open spec fn schema_fits(es: Seq<Operand>, schema: Seq<DataType>) -> bool {
    &&& schema.len() == es.len()
    &&& forall|k: int|
        0 <= k < es.len() && (#[trigger] literal_of(es[k])) is Some ==> schema[k] == DataType::Int64
}

/// No target schema is given, or it fits the fields.
pub open spec fn schema_accepts(schema: Option<Vec<DataType>>, es: Seq<Operand>) -> bool {
    match schema {
        Some(s) => schema_fits(es, s@),
        None => true,
    }
}

/// No target schema is given, or it gives every field exactly the type that
/// the field has on the frame.
pub open spec fn schema_matches(schema: Option<Vec<DataType>>, es: Seq<Operand>, df: DataFrame) -> bool {
    match schema {
        Some(s) => s@.len() == es.len() && forall|k: int|
            0 <= k < es.len() ==> s@[k] == #[trigger] operand_dtype(es[k], df),
        None => true,
    }
}

/// Every field is a literal.
pub open spec fn all_literal(es: Seq<Operand>) -> bool {
    forall|k: int| 0 <= k < es.len() ==> (#[trigger] literal_of(es[k])) is Some
}

/// `f` is the struct of the fields `es` whose evaluated columns are `cols`:
/// named after the first field, with the fields' names in order and, on each
/// of `rows` rows, the fields' values at that row.
pub open spec fn struct_of(f: StructFrame, es: Seq<Operand>, cols: Seq<Seq<Option<i64>>>, rows: nat) -> bool {
    &&& f.name@ == operand_name(es[0])
    &&& f.field_names@.len() == es.len()
    &&& forall|k: int| 0 <= k < es.len() ==> (#[trigger] f.field_names@[k])@ == operand_name(es[k])
    &&& f.rows@.len() == rows
    &&& forall|q: int| 0 <= q < rows ==> (#[trigger] f.rows@[q])@ == row_cells(cols, q)
}

/// `f` is the one-row struct of the literal fields `es`: named after the
/// first field, with the fields' names and values in order.
pub open spec fn holds_literals(f: StructFrame, es: Seq<Operand>) -> bool {
    &&& f.name@ == operand_name(es[0])
    &&& f.field_names@.len() == es.len()
    &&& f.rows@.len() == 1
    &&& f.rows@[0]@.len() == es.len()
    &&& forall|k: int|
        0 <= k < es.len() ==> (#[trigger] f.field_names@[k])@ == operand_name(es[k])
            && f.rows@[0]@[k] == literal_of(es[k]).unwrap()
}

/// Builds the struct expression, without a target schema; refuses an empty
/// list.
pub fn as_struct(exprs: Vec<Operand>) -> (r: Result<StructExpr, EngineError>)
    ensures
        exprs@.len() == 0 ==> r == Err::<StructExpr, EngineError>(EngineError::EmptyExpressionList),
        exprs@.len() > 0 ==> (r matches Ok(x) && x.fields@ == exprs@ && x.schema is None),
{
    if exprs.len() == 0 {
        Err(EngineError::EmptyExpressionList)
    } else {
        Ok(StructExpr { fields: exprs, schema: None })
    }
}

fn operand_name_exec(e: &Operand) -> (r: String)
    ensures
        r@ == operand_name(*e),
{
    match e {
        Operand::Column(n) => n.clone(),
        Operand::Literal(n, _) => n.clone(),
    }
}

pub fn operand_dtype_exec(e: &Operand, df: &DataFrame) -> (r: DataType)
    requires
        df.wf(),
        operand_values(*e, *df, context_rows(*df)) is Some,
    ensures
        r == operand_dtype(*e, *df),
{
    match e {
        Operand::Column(n) => {
            let mut a: usize = 0;
            while a < df.columns.len()
                invariant
                    df.wf(),
                    *e == Operand::Column(*n),
                    operand_values(*e, *df, context_rows(*df)) is Some,
                    a <= df.columns@.len(),
                    forall|q: int| 0 <= q < a ==> (#[trigger] df.columns@[q]).name@ != n@,
                decreases df.columns@.len() - a,
            {
                if df.columns[a].name == *n {
                    proof {
                        assert(0 <= a < df.columns@.len() && df.columns@[a as int].name@ == n@);
                        let a2 = choose|a2: int| 0 <= a2 < df.columns@.len() && (#[trigger] df.columns@[a2]).name@ == n@;
                        assert(a2 == a as int);
                    }
                    return df.columns[a].dtype;
                }
                a += 1;
            }
            DataType::Int64
        },
        Operand::Literal(_, _) => DataType::Int64,
    }
}

fn check_schema(es: &Vec<Operand>, schema: &Vec<DataType>) -> (r: bool)
    ensures
        r == schema_fits(es@, schema@),
{
    if es.len() != schema.len() {
        return false;
    }
    let mut k: usize = 0;
    while k < es.len()
        invariant
            es@.len() == schema@.len(),
            k <= es@.len(),
            forall|q: int|
                0 <= q < k && (#[trigger] literal_of(es@[q])) is Some ==> schema@[q] == DataType::Int64,
        decreases es@.len() - k,
    {
        match &es[k] {
            Operand::Literal(_, _) => {
                if schema[k] != DataType::Int64 {
                    assert(literal_of(es@[k as int]) is Some);
                    return false;
                }
            },
            Operand::Column(_) => {},
        }
        k += 1;
    }
    true
}

impl StructExpr {
    /// Materialises the struct against the frame: one struct value per row,
    /// field `k` holding operand `k`'s value at that row. A target schema
    /// must give each field the type it has on the frame.
    pub fn evaluate(&self, df: &DataFrame) -> (r: Result<StructFrame, EngineError>)
        requires
            df.wf(),
            self.fields@.len() > 0,
        ensures
            !all_resolve(self.fields@, *df, context_rows(*df)) ==> r == Err::<StructFrame, EngineError>(
                EngineError::ColumnNotFound,
            ),
            all_resolve(self.fields@, *df, context_rows(*df)) && !schema_matches(self.schema, self.fields@, *df)
                ==> r == Err::<StructFrame, EngineError>(EngineError::SchemaMismatch),
            all_resolve(self.fields@, *df, context_rows(*df)) && schema_matches(self.schema, self.fields@, *df)
                ==> (r matches Ok(f) && struct_of(
                f,
                self.fields@,
                operand_columns(self.fields@, *df, context_rows(*df)),
                context_rows(*df),
            )),
    {
        let rows = context_rows_of(df);
        let cols = eval_operands(&self.fields, df, rows)?;
        if let Some(s) = &self.schema {
            if s.len() != self.fields.len() {
                return Err(EngineError::SchemaMismatch);
            }
            let mut k: usize = 0;
            while k < s.len()
                invariant
                    df.wf(),
                    s@.len() == self.fields@.len(),
                    self.schema == Some(*s),
                    all_resolve(self.fields@, *df, context_rows(*df)),
                    k <= s@.len(),
                    forall|q: int| 0 <= q < k ==> s@[q] == #[trigger] operand_dtype(self.fields@[q], *df),
                decreases s@.len() - k,
            {
                assert(operand_values(self.fields@[k as int], *df, context_rows(*df)) is Some);
                if s[k] != operand_dtype_exec(&self.fields[k], df) {
                    return Err(EngineError::SchemaMismatch);
                }
                k += 1;
            }
        }
        let mut names: Vec<String> = Vec::new();
        let n = self.fields.len();
        let mut k: usize = 0;
        while k < n
            invariant
                n == self.fields@.len(),
                k <= n,
                names@.len() == k,
                forall|q: int| 0 <= q < k ==> (#[trigger] names@[q])@ == operand_name(self.fields@[q]),
            decreases n - k,
        {
            names.push(operand_name_exec(&self.fields[k]));
            k += 1;
        }
        let name = operand_name_exec(&self.fields[0]);
        let out = gather_rows(&cols, rows);
        assert(cols@.map_values(|c: Vec<Option<i64>>| c@) =~= operand_columns(self.fields@, *df, context_rows(*df)));
        Ok(StructFrame { name, field_names: names, rows: out })
    }
}

/// Builds a struct of the expressions. A target schema must fit the fields
/// (see `schema_fits`) and is kept on the expression, which checks it
/// against each frame it is evaluated on. With `eager` the struct is
/// evaluated at once on an empty frame, where each literal gives one row and
/// a column reference fails, the failure coming back wrapped in
/// `EngineEvaluationError`; otherwise the expression is returned.
pub fn struct_(exprs: Vec<Operand>, eager: bool, schema: Option<Vec<DataType>>) -> (r: Result<
    StructValue,
    EngineError,
>)
    ensures
        exprs@.len() == 0 ==> r == Err::<StructValue, EngineError>(EngineError::EmptyExpressionList),
        exprs@.len() > 0 && !schema_accepts(schema, exprs@) ==> r == Err::<StructValue, EngineError>(
            EngineError::SchemaMismatch,
        ),
        exprs@.len() > 0 && schema_accepts(schema, exprs@) && !eager ==> (r matches Ok(
            StructValue::Lazy(x),
        ) && x.fields@ == exprs@ && x.schema == schema),
        exprs@.len() > 0 && schema_accepts(schema, exprs@) && eager && !all_literal(exprs@) ==> r
            == Err::<StructValue, EngineError>(
            EngineError::EngineEvaluationError(EngineFailure::ColumnNotFound),
        ),
        exprs@.len() > 0 && schema_accepts(schema, exprs@) && eager && all_literal(exprs@) ==> (r matches Ok(
            StructValue::Frame(f),
        ) && holds_literals(f, exprs@)),
{
    let mut x = as_struct(exprs)?;
    if let Some(s) = &schema {
        if !check_schema(&x.fields, s) {
            return Err(EngineError::SchemaMismatch);
        }
    }
    x.schema = schema;
    if !eager {
        return Ok(StructValue::Lazy(x));
    }
    let ctx = DataFrame::empty();
    let ghost es = exprs@;
    proof {
        assert forall|k: int| 0 <= k < es.len() implies (#[trigger] operand_values(es[k], ctx, 1)) is Some
            == (literal_of(es[k]) is Some) by {}
        if all_literal(es) && x.schema is Some {
            assert forall|k: int| 0 <= k < es.len() implies x.schema->Some_0@[k] == #[trigger] operand_dtype(
                es[k],
                ctx,
            ) by {
                assert(literal_of(es[k]) is Some);
            }
        }
    }
    match x.evaluate(&ctx) {
        Ok(f) => {
            proof {
                let cols = operand_columns(es, ctx, 1);
                assert(context_rows(ctx) == 1);
                assert(all_resolve(es, ctx, 1));
                assert forall|k: int| 0 <= k < es.len() implies (#[trigger] literal_of(es[k])) is Some by {
                    assert(operand_values(es[k], ctx, 1) is Some);
                }
                assert(f.rows@[0]@ == row_cells(cols, 0));
                assert forall|k: int| 0 <= k < es.len() implies (#[trigger] f.field_names@[k])@ == operand_name(es[k])
                    && f.rows@[0]@[k] == literal_of(es[k]).unwrap() by {
                    assert(literal_of(es[k]) is Some);
                    assert(cols[k] == operand_values(es[k], ctx, 1).unwrap());
                }
            }
            Ok(StructValue::Frame(f))
        },
        Err(err) => {
            proof {
                assert(context_rows(ctx) == 1);
                if !all_literal(es) {
                    let k = choose|k: int| 0 <= k < es.len() && !((#[trigger] literal_of(es[k])) is Some);
                    assert(operand_values(es[k], ctx, 1) is None);
                    assert(!all_resolve(es, ctx, 1));
                    assert(err == EngineError::ColumnNotFound);
                }
                if all_literal(es) {
                    assert forall|k: int| 0 <= k < es.len() implies (#[trigger] operand_values(es[k], ctx, 1)) is Some by {
                        assert(literal_of(es[k]) is Some);
                    }
                }
            }
            match err {
                EngineError::SchemaMismatch => Err(
                    EngineError::EngineEvaluationError(EngineFailure::SchemaMismatch),
                ),
                EngineError::ColumnNotFound => Err(
                    EngineError::EngineEvaluationError(EngineFailure::ColumnNotFound),
                ),
                other => Err(other),
            }
        },
    }
}

} // verus!
