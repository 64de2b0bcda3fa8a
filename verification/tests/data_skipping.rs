use delta_log_replay::engine_data::{ActionBatch, Column};
use delta_log_replay::expressions::BinaryOperator as Op;
use delta_log_replay::expressions::{
    BinaryOperator, Expression, Scalar, UnaryOperator, VariadicOperator,
};
use delta_log_replay::scan::data_skipping::{as_data_skipping_predicate, DataSkippingFilter};
use delta_log_replay::scan::log_replay::{scan_action_iter, LogReplayScanner};
use delta_log_replay::schema::{ColumnName, StructType};

fn name(path: &[&str]) -> ColumnName {
    ColumnName::new(path.iter().map(|s| s.to_string()).collect())
}

fn column(path: &[&str]) -> Box<Expression> {
    Box::new(Expression::Column(name(path)))
}

fn long(v: i64) -> Box<Expression> {
    Box::new(Expression::Literal(Scalar::Long(v)))
}

fn compare(op: BinaryOperator, c: &str, v: i64) -> Expression {
    Expression::Binary(op, column(&[c]), long(v))
}

fn stat(op: BinaryOperator, kind: &str, c: &str, v: i64) -> Expression {
    Expression::Binary(op, column(&[kind, c]), long(v))
}

fn not(e: Expression) -> Expression {
    Expression::Unary(UnaryOperator::Not, Box::new(e))
}

fn and(es: Vec<Expression>) -> Expression {
    Expression::Variadic(VariadicOperator::And, es)
}

fn or(es: Vec<Expression>) -> Expression {
    Expression::Variadic(VariadicOperator::Or, es)
}

#[test]
fn comparisons_turn_to_the_least_and_the_greatest_value() {
    let skipping = |op| as_data_skipping_predicate(&compare(op, "x", 5), false);
    assert_eq!(skipping(Op::LessThan), Some(stat(Op::LessThan, "minValues", "x", 5)));
    assert_eq!(skipping(Op::LessThanOrEqual), Some(stat(Op::LessThanOrEqual, "minValues", "x", 5)));
    assert_eq!(skipping(Op::GreaterThan), Some(stat(Op::GreaterThan, "maxValues", "x", 5)));
    assert_eq!(
        skipping(Op::GreaterThanOrEqual),
        Some(stat(Op::GreaterThanOrEqual, "maxValues", "x", 5))
    );
    assert_eq!(
        skipping(Op::Equal),
        Some(and(vec![
            stat(Op::LessThanOrEqual, "minValues", "x", 5),
            stat(Op::GreaterThanOrEqual, "maxValues", "x", 5),
        ]))
    );
    assert_eq!(
        skipping(Op::NotEqual),
        Some(or(vec![
            stat(Op::NotEqual, "minValues", "x", 5),
            stat(Op::NotEqual, "maxValues", "x", 5),
        ]))
    );
}

#[test]
fn a_negation_is_pushed_down_to_the_comparisons() {
    assert_eq!(
        as_data_skipping_predicate(&not(compare(Op::LessThan, "x", 5)), false),
        Some(stat(Op::GreaterThanOrEqual, "maxValues", "x", 5))
    );
    assert_eq!(
        as_data_skipping_predicate(&not(not(compare(Op::LessThan, "x", 5))), false),
        Some(stat(Op::LessThan, "minValues", "x", 5))
    );
    assert_eq!(
        as_data_skipping_predicate(
            &not(and(vec![compare(Op::LessThan, "x", 5), compare(Op::GreaterThan, "y", 1)])),
            false
        ),
        Some(or(vec![
            stat(Op::GreaterThanOrEqual, "maxValues", "x", 5),
            stat(Op::LessThanOrEqual, "minValues", "y", 1),
        ]))
    );
}

#[test]
fn a_literal_on_the_left_is_turned_round() {
    let e = Expression::Binary(Op::LessThan, long(5), column(&["x"]));
    assert_eq!(
        as_data_skipping_predicate(&e, false),
        Some(stat(Op::GreaterThan, "maxValues", "x", 5))
    );
    assert_eq!(
        as_data_skipping_predicate(&e, true),
        Some(stat(Op::LessThanOrEqual, "minValues", "x", 5))
    );
}

#[test]
fn null_checks_turn_to_the_number_of_nulls() {
    let is_null = Expression::Unary(UnaryOperator::IsNull, column(&["x"]));
    assert_eq!(
        as_data_skipping_predicate(&is_null, false),
        Some(stat(Op::GreaterThan, "nullCount", "x", 0))
    );
    assert_eq!(
        as_data_skipping_predicate(&not(is_null), false),
        Some(Expression::Binary(Op::NotEqual, column(&["nullCount", "x"]), column(&["numRecords"])))
    );
}

#[test]
fn parts_that_statistics_say_nothing_about() {
    let opaque = Expression::Binary(Op::LessThan, column(&["x"]), column(&["y"]));
    assert_eq!(as_data_skipping_predicate(&opaque, false), None);
    assert_eq!(as_data_skipping_predicate(&Expression::Column(name(&["b"])), false), None);
    assert_eq!(
        as_data_skipping_predicate(&Expression::Literal(Scalar::Boolean(false)), false),
        None
    );
    // they are left out of a conjunction
    let both = and(vec![opaque, compare(Op::LessThan, "x", 5)]);
    assert_eq!(
        as_data_skipping_predicate(&both, false),
        Some(and(vec![stat(Op::LessThan, "minValues", "x", 5)]))
    );
    // and make a disjunction say nothing
    let opaque = Expression::Binary(Op::LessThan, column(&["x"]), column(&["y"]));
    let either = or(vec![opaque, compare(Op::LessThan, "x", 5)]);
    assert_eq!(as_data_skipping_predicate(&either, false), None);
    assert!(DataSkippingFilter::new(Some((either, StructType::new(vec![])))).is_none());
    assert!(DataSkippingFilter::new(None).is_none());
}

/// A batch of adds with the statistics of their column `value`: the least
/// and the greatest value and the number of nulls; each may be missing.
fn batch_with_stats(rows: &[Option<(Option<i64>, Option<i64>, Option<i64>, Option<i64>)>]) -> ActionBatch {
    let path = |i: usize| format!("file-{}.parquet", i);
    let stats = |f: fn(&(Option<i64>, Option<i64>, Option<i64>, Option<i64>)) -> Option<i64>| {
        Column::Long(rows.iter().map(|r| r.as_ref().and_then(f)).collect())
    };
    let columns = vec![
        (
            name(&["add", "path"]),
            Column::Str(rows.iter().enumerate().map(|(i, r)| r.map(|_| path(i))).collect()),
        ),
        (
            name(&["add", "partitionValues"]),
            Column::StrMap(rows.iter().map(|r| r.map(|_| vec![])).collect()),
        ),
        (name(&["add", "size"]), Column::Long(rows.iter().map(|r| r.map(|_| 1)).collect())),
        (
            name(&["add", "modificationTime"]),
            Column::Long(rows.iter().map(|r| r.map(|_| 2)).collect()),
        ),
        (name(&["add", "stats"]), Column::Str(rows.iter().map(|_| None).collect())),
        (
            name(&["add", "deletionVector", "storageType"]),
            Column::Str(rows.iter().map(|_| None).collect()),
        ),
        (
            name(&["add", "deletionVector", "pathOrInlineDv"]),
            Column::Str(rows.iter().map(|_| None).collect()),
        ),
        (
            name(&["add", "deletionVector", "offset"]),
            Column::Int(rows.iter().map(|_| None).collect()),
        ),
        (
            name(&["add", "deletionVector", "sizeInBytes"]),
            Column::Int(rows.iter().map(|_| None).collect()),
        ),
        (
            name(&["add", "deletionVector", "cardinality"]),
            Column::Long(rows.iter().map(|_| None).collect()),
        ),
        (name(&["add", "stats_parsed", "numRecords"]), stats(|r| r.3)),
        (name(&["add", "stats_parsed", "minValues", "value"]), stats(|r| r.0)),
        (name(&["add", "stats_parsed", "maxValues", "value"]), stats(|r| r.1)),
        (name(&["add", "stats_parsed", "nullCount", "value"]), stats(|r| r.2)),
    ];
    let mut batch = ActionBatch::new(rows.len());
    for (name, column) in columns {
        batch = batch.with_column(name, column).unwrap();
    }
    batch
}

fn filter(e: Expression) -> DataSkippingFilter {
    DataSkippingFilter::new(Some((e, StructType::new(vec![])))).unwrap()
}

#[test]
fn files_whose_statistics_rule_them_out_are_skipped() {
    let batch = batch_with_stats(&[
        Some((Some(1), Some(10), Some(0), Some(10))),
        Some((Some(11), Some(20), Some(0), Some(10))),
        None,
        Some((None, None, None, None)),
        Some((Some(5), Some(5), Some(3), Some(8))),
        Some((None, None, Some(4), Some(4))),
    ]);
    let sel = |e: Expression| filter(e).apply(&batch).unwrap();
    assert_eq!(
        sel(compare(Op::GreaterThan, "value", 10)),
        vec![false, true, true, true, false, true]
    );
    assert_eq!(
        sel(compare(Op::LessThan, "value", 5)),
        vec![true, false, true, true, false, true]
    );
    assert_eq!(
        sel(compare(Op::Equal, "value", 5)),
        vec![true, false, true, true, true, true]
    );
    assert_eq!(
        sel(compare(Op::NotEqual, "value", 5)),
        vec![true, true, true, true, false, true]
    );
    assert_eq!(
        sel(not(compare(Op::LessThanOrEqual, "value", 10))),
        vec![false, true, true, true, false, true]
    );
    assert_eq!(
        sel(Expression::Unary(UnaryOperator::IsNull, column(&["value"]))),
        vec![false, false, true, true, true, true]
    );
    assert_eq!(
        sel(not(Expression::Unary(UnaryOperator::IsNull, column(&["value"])))),
        vec![true, true, true, true, true, false]
    );
    // statistics of another column decide nothing
    assert_eq!(sel(compare(Op::GreaterThan, "other", 10)), vec![true; 6]);
    // a literal of another type cannot be compared
    let text = Expression::Binary(
        Op::GreaterThan,
        column(&["value"]),
        Box::new(Expression::Literal(Scalar::String("z".to_string()))),
    );
    assert_eq!(sel(text), vec![true; 6]);
}

#[test]
fn a_batch_without_statistics_is_kept_whole() {
    let batch = ActionBatch::new(2)
        .with_column(name(&["add", "path"]), Column::Str(vec![Some("a".into()), None]))
        .unwrap();
    assert_eq!(
        filter(compare(Op::GreaterThan, "value", 10)).apply(&batch),
        Ok(vec![true, true])
    );
    assert_eq!(
        filter(compare(Op::GreaterThan, "value", 10)).apply(&ActionBatch::new(3)),
        Ok(vec![true, true, true])
    );
}

#[test]
fn rows_that_are_no_adds_are_never_skipped() {
    // The statistics would rule the row out, but the row holds no add.
    let batch = ActionBatch::new(1)
        .with_column(name(&["add", "path"]), Column::Str(vec![None]))
        .unwrap()
        .with_column(name(&["add", "stats_parsed", "maxValues", "value"]), Column::Long(vec![Some(1)]))
        .unwrap();
    assert_eq!(filter(compare(Op::GreaterThan, "value", 10)).apply(&batch), Ok(vec![true]));
}

#[test]
fn a_skipped_file_is_neither_selected_nor_recorded() {
    let predicate = || compare(Op::GreaterThan, "value", 10);
    let schema = StructType::new(vec![]);
    let mut scanner = LogReplayScanner::new(Some((predicate(), StructType::new(vec![]))));
    let batch = batch_with_stats(&[
        Some((Some(1), Some(10), Some(0), Some(10))),
        Some((Some(11), Some(20), Some(0), Some(10))),
    ]);
    // a checkpoint batch: the columns of removes are not needed
    let (_rows, sel, transforms) =
        scanner.process_scan_batch(&batch, &schema, None, false).unwrap();
    assert_eq!(sel, vec![false, true]);
    assert!(transforms.is_empty());
    let results = scan_action_iter(
        vec![Ok((batch, false))],
        &schema,
        None,
        Some((predicate(), StructType::new(vec![]))),
    );
    assert_eq!(results.len(), 1);
    assert_eq!(results[0].as_ref().unwrap().1, vec![false, true]);
}
