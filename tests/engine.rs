use tabconcat::concat::{concat_df, concat_df_chunked, hor_concat_df};
use tabconcat::diagonal::diag_concat_df;
use tabconcat::frame::{DataFrame, DataType, EngineError, EngineFailure, Series, TimeUnit};
use tabconcat::range::{date_range, date_range_lazy, ClosedWindow};
use tabconcat::reduce::{coalesce_exprs, concat_lst, max_exprs, min_exprs, sum_exprs, Operand};
use tabconcat::structs::{as_struct, struct_, StructExpr, StructValue};

fn col(name: &str, values: Vec<Option<i64>>) -> Series {
    Series { name: name.to_string(), dtype: DataType::Int64, values }
}

fn frame(cols: Vec<Series>) -> DataFrame {
    DataFrame::new(cols).unwrap()
}

fn ab(a: Vec<Option<i64>>, b: Vec<Option<i64>>) -> DataFrame {
    frame(vec![col("a", a), col("b", b)])
}

fn values(df: &DataFrame, j: usize) -> Vec<Option<i64>> {
    df.columns[j].values.clone()
}

fn three_frames() -> Vec<DataFrame> {
    vec![
        ab(vec![Some(1), Some(2)], vec![Some(10), None]),
        ab(vec![Some(3)], vec![Some(30)]),
        ab(vec![None, Some(5), Some(6)], vec![Some(40), Some(50), Some(60)]),
    ]
}

#[test]
fn vertical_matches_sequential_append_for_every_chunk_size() {
    let expected_a = vec![Some(1), Some(2), Some(3), None, Some(5), Some(6)];
    let expected_b = vec![Some(10), None, Some(30), Some(40), Some(50), Some(60)];
    for chunk in 0..6usize {
        let df = concat_df_chunked(three_frames(), chunk).unwrap();
        assert_eq!(df.columns.len(), 2);
        assert_eq!(df.columns[0].name, "a");
        assert_eq!(df.columns[1].name, "b");
        assert_eq!(values(&df, 0), expected_a);
        assert_eq!(values(&df, 1), expected_b);
    }
    let df = concat_df(three_frames()).unwrap();
    assert_eq!(values(&df, 0), expected_a);
    assert_eq!(values(&df, 1), expected_b);
}

#[test]
fn vertical_single_frame_is_unchanged() {
    let df = concat_df(vec![ab(vec![Some(7), None], vec![Some(8), Some(9)])]).unwrap();
    assert_eq!(df.columns.len(), 2);
    assert_eq!(df.columns[0].name, "a");
    assert_eq!(values(&df, 0), vec![Some(7), None]);
    assert_eq!(values(&df, 1), vec![Some(8), Some(9)]);
}

#[test]
fn vertical_errors() {
    assert_eq!(concat_df(vec![]).unwrap_err(), EngineError::EmptySequence);
    let other = frame(vec![col("a", vec![Some(1)]), col("c", vec![Some(2)])]);
    let r = concat_df(vec![ab(vec![Some(1)], vec![Some(2)]), other]);
    assert_eq!(r.unwrap_err(), EngineError::SchemaMismatch);
    let typed = frame(vec![
        col("a", vec![Some(1)]),
        Series { name: "b".to_string(), dtype: DataType::Date, values: vec![Some(2)] },
    ]);
    let r = concat_df(vec![ab(vec![Some(1)], vec![Some(2)]), typed]);
    assert_eq!(r.unwrap_err(), EngineError::SchemaMismatch);
}

#[test]
fn diagonal_unions_schemas_and_fills_nulls() {
    let f1 = ab(vec![Some(1), Some(2)], vec![Some(3), Some(4)]);
    let f2 = frame(vec![col("c", vec![Some(5)]), col("a", vec![Some(6)])]);
    let df = diag_concat_df(vec![f1, f2]).unwrap();
    let names: Vec<String> = df.columns.iter().map(|c| c.name.clone()).collect();
    assert_eq!(names, vec!["a", "b", "c"]);
    assert_eq!(values(&df, 0), vec![Some(1), Some(2), Some(6)]);
    assert_eq!(values(&df, 1), vec![Some(3), Some(4), None]);
    assert_eq!(values(&df, 2), vec![None, None, Some(5)]);
}

#[test]
fn diagonal_errors() {
    assert_eq!(diag_concat_df(vec![]).unwrap_err(), EngineError::EmptySequence);
    let f2 = frame(vec![Series { name: "a".to_string(), dtype: DataType::Boolean, values: vec![Some(1)] }]);
    let r = diag_concat_df(vec![ab(vec![Some(1)], vec![Some(2)]), f2]);
    assert_eq!(r.unwrap_err(), EngineError::DtypeConflict);
}

#[test]
fn horizontal_joins_columns() {
    let f1 = frame(vec![col("a", vec![Some(1), Some(2)])]);
    let f2 = frame(vec![col("b", vec![Some(3), None]), col("c", vec![None, Some(4)])]);
    let df = hor_concat_df(vec![f1, f2]).unwrap();
    let names: Vec<String> = df.columns.iter().map(|c| c.name.clone()).collect();
    assert_eq!(names, vec!["a", "b", "c"]);
    assert_eq!(values(&df, 2), vec![None, Some(4)]);
}

#[test]
fn horizontal_errors() {
    assert_eq!(hor_concat_df(vec![]).unwrap_err(), EngineError::EmptySequence);
    let f1 = frame(vec![col("a", vec![Some(1), Some(2)])]);
    let f2 = frame(vec![col("b", vec![Some(3)])]);
    assert_eq!(hor_concat_df(vec![f1, f2]).unwrap_err(), EngineError::RowCountMismatch);
    let f1 = frame(vec![col("a", vec![Some(1)])]);
    let f2 = frame(vec![col("a", vec![Some(3)])]);
    assert_eq!(hor_concat_df(vec![f1, f2]).unwrap_err(), EngineError::DuplicateColumnName);
}

#[test]
fn frame_new_checks_invariant() {
    let r = DataFrame::new(vec![col("a", vec![Some(1)]), col("b", vec![])]);
    assert_eq!(r.unwrap_err(), EngineError::RowCountMismatch);
    let r = DataFrame::new(vec![col("a", vec![Some(1)]), col("a", vec![Some(2)])]);
    assert_eq!(r.unwrap_err(), EngineError::DuplicateColumnName);
}

fn xy() -> DataFrame {
    frame(vec![col("x", vec![Some(1), None, Some(3)]), col("y", vec![Some(2), Some(2), None])])
}

fn cols_xy() -> Vec<Operand> {
    vec![Operand::Column("x".to_string()), Operand::Column("y".to_string())]
}

#[test]
fn min_and_max_skip_nulls() {
    let df = xy();
    let min = min_exprs(cols_xy()).unwrap().evaluate(&df).unwrap();
    assert_eq!(min, vec![Some(1), Some(2), Some(3)]);
    let max = max_exprs(cols_xy()).unwrap().evaluate(&df).unwrap();
    assert_eq!(max, vec![Some(2), Some(2), Some(3)]);
}

#[test]
fn reducers_give_null_only_for_all_null_rows() {
    let df = frame(vec![col("x", vec![None, Some(1)]), col("y", vec![None, None])]);
    let cols = || vec![Operand::Column("x".to_string()), Operand::Column("y".to_string())];
    assert_eq!(min_exprs(cols()).unwrap().evaluate(&df).unwrap(), vec![None, Some(1)]);
    assert_eq!(max_exprs(cols()).unwrap().evaluate(&df).unwrap(), vec![None, Some(1)]);
    assert_eq!(sum_exprs(cols()).unwrap().evaluate(&df).unwrap(), vec![None, Some(1)]);
    assert_eq!(coalesce_exprs(cols()).unwrap().evaluate(&df).unwrap(), vec![None, Some(1)]);
}

#[test]
fn sum_treats_null_as_zero() {
    let df = xy();
    let sum = sum_exprs(cols_xy()).unwrap().evaluate(&df).unwrap();
    assert_eq!(sum, vec![Some(3), Some(2), Some(3)]);
}

#[test]
fn coalesce_takes_first_non_null() {
    let df = frame(vec![col("p", vec![None, Some(5), None]), col("q", vec![Some(1), Some(1), Some(1)])]);
    let e = coalesce_exprs(vec![Operand::Column("p".to_string()), Operand::Column("q".to_string())]);
    assert_eq!(e.unwrap().evaluate(&df).unwrap(), vec![Some(1), Some(5), Some(1)]);
}

#[test]
fn literal_operand_repeats_on_every_row() {
    let df = xy();
    let e = max_exprs(vec![Operand::Column("x".to_string()), Operand::Literal("lit".to_string(), Some(2))]);
    assert_eq!(e.unwrap().evaluate(&df).unwrap(), vec![Some(2), Some(2), Some(3)]);
}

#[test]
fn concat_list_keeps_nulls() {
    let df = xy();
    let lists = concat_lst(cols_xy()).unwrap().evaluate(&df).unwrap();
    assert_eq!(lists, vec![vec![Some(1), Some(2)], vec![None, Some(2)], vec![Some(3), None]]);
}

#[test]
fn reducer_errors() {
    assert_eq!(min_exprs(vec![]).unwrap_err(), EngineError::EmptyExpressionList);
    assert_eq!(max_exprs(vec![]).unwrap_err(), EngineError::EmptyExpressionList);
    assert_eq!(sum_exprs(vec![]).unwrap_err(), EngineError::EmptyExpressionList);
    assert_eq!(coalesce_exprs(vec![]).unwrap_err(), EngineError::EmptyExpressionList);
    assert_eq!(concat_lst(vec![]).unwrap_err(), EngineError::EmptyExpressionList);
    let e = min_exprs(vec![Operand::Column("missing".to_string())]).unwrap();
    assert_eq!(e.evaluate(&xy()).unwrap_err(), EngineError::ColumnNotFound);
}

const DAY_MS: i64 = 86_400_000;

fn day_range(closed: ClosedWindow) -> Vec<Option<i64>> {
    let r = date_range(0, 4 * DAY_MS, "1d", closed, "d".to_string(), TimeUnit::Milliseconds, None);
    let r = r.unwrap();
    assert_eq!(r.series.dtype, DataType::Datetime(TimeUnit::Milliseconds));
    assert_eq!(r.series.name, "d");
    r.series.values.iter().map(|v| v.map(|x| x / DAY_MS)).collect()
}

#[test]
fn date_range_closed_windows() {
    assert_eq!(day_range(ClosedWindow::Both), vec![Some(0), Some(1), Some(2), Some(3), Some(4)]);
    assert_eq!(day_range(ClosedWindow::Left), vec![Some(0), Some(1), Some(2), Some(3)]);
    assert_eq!(day_range(ClosedWindow::Right), vec![Some(1), Some(2), Some(3), Some(4)]);
    assert_eq!(day_range(ClosedWindow::Neither), vec![Some(1), Some(2), Some(3)]);
}

#[test]
fn date_range_units_and_errors() {
    let r = date_range(0, 5, "2ns", ClosedWindow::Both, "t".to_string(), TimeUnit::Nanoseconds, Some("UTC".to_string()));
    let r = r.unwrap();
    assert_eq!(r.series.values, vec![Some(0), Some(2), Some(4)]);
    assert_eq!(r.time_zone, Some("UTC".to_string()));
    let r = date_range(0, 3_000, "1us", ClosedWindow::Both, "t".to_string(), TimeUnit::Microseconds, None);
    assert_eq!(r.unwrap().series.values.len(), 3_001);
    let r = date_range(0, 10, "90m", ClosedWindow::Both, "t".to_string(), TimeUnit::Milliseconds, None);
    assert_eq!(r.unwrap().series.values, vec![Some(0)]);
    for bad in ["", "d", "1", "1x", "0d", "1dd", "-1d", "99999999999999999999d", "5ns", "3i", "0mo", "mo", "1h30", "h1", "1h 30m", "10000000000000000000ns", "9223372036854775807ns1ns"] {
        let r = date_range(0, 10, bad, ClosedWindow::Both, "t".to_string(), TimeUnit::Milliseconds, None);
        assert_eq!(r.unwrap_err(), EngineError::InvalidDurationSpec, "{}", bad);
    }
    let r = date_range(5, 0, "1ms", ClosedWindow::Both, "t".to_string(), TimeUnit::Milliseconds, None);
    assert!(r.unwrap().series.values.is_empty());
}

#[test]
fn lazy_date_range_per_row() {
    let ms = DataType::Datetime(TimeUnit::Milliseconds);
    let df = frame(vec![
        Series { name: "s".to_string(), dtype: ms, values: vec![Some(0), None, Some(10)] },
        Series { name: "e".to_string(), dtype: ms, values: vec![Some(2), Some(3), Some(11)] },
    ]);
    let e = date_range_lazy(
        Operand::Column("s".to_string()),
        Operand::Column("e".to_string()),
        "1ms",
        ClosedWindow::Both,
        "r".to_string(),
        None,
    )
    .unwrap();
    let rows = e.evaluate(&df).unwrap();
    assert_eq!(rows, vec![Some(vec![0, 1, 2]), None, Some(vec![10, 11])]);
    let plain = frame(vec![col("s", vec![Some(0)]), col("e", vec![Some(2_000)])]);
    let rows = e.evaluate(&plain).unwrap();
    assert_eq!(rows, vec![Some(vec![0, 1_000, 2_000])]);
    let bad = date_range_lazy(
        Operand::Column("s".to_string()),
        Operand::Column("e".to_string()),
        "1q",
        ClosedWindow::Both,
        "r".to_string(),
        None,
    );
    assert_eq!(bad.unwrap_err(), EngineError::InvalidDurationSpec);
}

fn days(v: Vec<Option<i64>>) -> Vec<i64> {
    v.into_iter().map(|x| x.unwrap() / DAY_MS).collect()
}

#[test]
fn calendar_steps_clamp_to_month_end() {
    let ms = TimeUnit::Milliseconds;
    let r = date_range(19753 * DAY_MS, 19874 * DAY_MS, "1mo", ClosedWindow::Both, "m".to_string(), ms, None);
    assert_eq!(days(r.unwrap().series.values), vec![19753, 19782, 19813, 19843, 19874]);
    let r = date_range(18321 * DAY_MS, 19782 * DAY_MS, "1y", ClosedWindow::Both, "y".to_string(), ms, None);
    assert_eq!(days(r.unwrap().series.values), vec![18321, 18686, 19051, 19416, 19782]);
    let r = date_range(19753 * DAY_MS, 19843 * DAY_MS, "1mo15d", ClosedWindow::Both, "c".to_string(), ms, None);
    assert_eq!(days(r.unwrap().series.values), vec![19753, 19797, 19843]);
    let r = date_range(19753 * DAY_MS, 19874 * DAY_MS, "1mo", ClosedWindow::Neither, "m".to_string(), ms, None);
    assert_eq!(days(r.unwrap().series.values), vec![19782, 19813, 19843]);
}

#[test]
fn calendar_steps_keep_time_of_day_and_cross_the_epoch() {
    let ms = TimeUnit::Milliseconds;
    let start = -DAY_MS + 3_600_000;
    let r = date_range(start, 40 * DAY_MS, "1mo", ClosedWindow::Both, "m".to_string(), ms, None);
    assert_eq!(r.unwrap().series.values, vec![Some(start), Some(30 * DAY_MS + 3_600_000)]);
    let us = TimeUnit::Microseconds;
    let r = date_range(0, 400 * DAY_MS * 1_000, "1y1d", ClosedWindow::Left, "u".to_string(), us, None);
    assert_eq!(r.unwrap().series.values, vec![Some(0), Some(366 * DAY_MS * 1_000)]);
}

fn two_literals() -> Vec<Operand> {
    vec![Operand::Literal("p".to_string(), Some(1)), Operand::Literal("q".to_string(), Some(2))]
}

#[test]
fn struct_eager_and_lazy() {
    match struct_(two_literals(), true, None).unwrap() {
        StructValue::Frame(f) => {
            assert_eq!(f.name, "p");
            assert_eq!(f.field_names, vec!["p", "q"]);
            assert_eq!(f.rows, vec![vec![Some(1), Some(2)]]);
        }
        StructValue::Lazy(_) => panic!("expected a frame"),
    }
    match struct_(two_literals(), false, None).unwrap() {
        StructValue::Lazy(x) => {
            assert_eq!(x.fields.len(), 2);
            assert!(x.schema.is_none());
        }
        StructValue::Frame(_) => panic!("expected an expression"),
    }
    assert!(as_struct(two_literals()).is_ok());
}

#[test]
fn struct_errors_and_schema_policy() {
    assert_eq!(struct_(vec![], true, None).unwrap_err(), EngineError::EmptyExpressionList);
    assert_eq!(as_struct(vec![]).unwrap_err(), EngineError::EmptyExpressionList);
    let with_col = vec![Operand::Column("x".to_string())];
    assert_eq!(struct_(with_col, true, None).unwrap_err(), EngineError::EngineEvaluationError(EngineFailure::ColumnNotFound));
    let r = struct_(two_literals(), true, Some(vec![DataType::Int64]));
    assert_eq!(r.unwrap_err(), EngineError::SchemaMismatch);
    let r = struct_(two_literals(), true, Some(vec![DataType::Int64, DataType::Date]));
    assert_eq!(r.unwrap_err(), EngineError::SchemaMismatch);
    let r = struct_(two_literals(), true, Some(vec![DataType::Int64, DataType::Int64]));
    assert!(matches!(r, Ok(StructValue::Frame(_))));
}

#[test]
fn combined_durations_add_up() {
    let one = |every: &str| {
        let r = date_range(0, 10 * 3_600_000, every, ClosedWindow::Both, "t".to_string(), TimeUnit::Milliseconds, None);
        r.unwrap().series.values
    };
    assert_eq!(one("1h30m"), vec![Some(0), Some(5_400_000), Some(10_800_000), Some(16_200_000), Some(21_600_000), Some(27_000_000), Some(32_400_000)]);
    assert_eq!(one("3h"), one("2h60m"));
    assert_eq!(one("1d12h"), vec![Some(0)]);
    let r = date_range(0, 4, "1ms1us", ClosedWindow::Both, "t".to_string(), TimeUnit::Microseconds, None);
    assert_eq!(r.unwrap().series.values, vec![Some(0)]);
    let r = date_range(0, 2_002, "1ms1us", ClosedWindow::Both, "t".to_string(), TimeUnit::Microseconds, None);
    assert_eq!(r.unwrap().series.values, vec![Some(0), Some(1_001), Some(2_002)]);
}

#[test]
fn struct_expression_evaluates_on_a_frame() {
    let df = xy();
    let fields = vec![Operand::Column("y".to_string()), Operand::Literal("k".to_string(), Some(7)), Operand::Column("x".to_string())];
    let f = as_struct(fields).unwrap().evaluate(&df).unwrap();
    assert_eq!(f.name, "y");
    assert_eq!(f.field_names, vec!["y", "k", "x"]);
    assert_eq!(f.rows, vec![vec![Some(2), Some(7), Some(1)], vec![Some(2), Some(7), None], vec![None, Some(7), Some(3)]]);
    let missing = as_struct(vec![Operand::Column("z".to_string())]).unwrap();
    assert_eq!(missing.evaluate(&df).unwrap_err(), EngineError::ColumnNotFound);
}

#[test]
fn struct_schema_is_checked_on_evaluation() {
    let df = frame(vec![
        col("x", vec![Some(1)]),
        Series { name: "d".to_string(), dtype: DataType::Date, values: vec![Some(3)] },
    ]);
    let fields = || vec![Operand::Column("x".to_string()), Operand::Column("d".to_string())];
    let good = StructExpr { fields: fields(), schema: Some(vec![DataType::Int64, DataType::Date]) };
    assert_eq!(good.evaluate(&df).unwrap().rows, vec![vec![Some(1), Some(3)]]);
    let bad = StructExpr { fields: fields(), schema: Some(vec![DataType::Int64, DataType::Int64]) };
    assert_eq!(bad.evaluate(&df).unwrap_err(), EngineError::SchemaMismatch);
    let short = StructExpr { fields: fields(), schema: Some(vec![DataType::Int64]) };
    assert_eq!(short.evaluate(&df).unwrap_err(), EngineError::SchemaMismatch);
    match struct_(fields(), false, Some(vec![DataType::Int64, DataType::Boolean])).unwrap() {
        StructValue::Lazy(x) => assert_eq!(x.evaluate(&df).unwrap_err(), EngineError::SchemaMismatch),
        StructValue::Frame(_) => panic!("expected an expression"),
    }
}

#[test]
fn literals_give_one_row_on_a_frame_without_columns() {
    let empty = DataFrame::empty();
    let e = sum_exprs(vec![Operand::Literal("a".to_string(), Some(2)), Operand::Literal("b".to_string(), Some(3))]);
    assert_eq!(e.unwrap().evaluate(&empty).unwrap(), vec![Some(5)]);
    let f = as_struct(two_literals()).unwrap().evaluate(&empty).unwrap();
    assert_eq!(f.rows, vec![vec![Some(1), Some(2)]]);
}

#[test]
fn sum_is_exact_when_totals_fit_and_wraps_otherwise() {
    let df = frame(vec![col("x", vec![Some(i64::MAX - 1), Some(i64::MAX)]), col("y", vec![Some(1), Some(1)])]);
    let e = sum_exprs(vec![Operand::Column("x".to_string()), Operand::Column("y".to_string())]);
    assert_eq!(e.unwrap().evaluate(&df).unwrap(), vec![Some(i64::MAX), Some(i64::MIN)]);
}
