use delta_log_replay::error::Error;
use delta_log_replay::expressions::{
    BinaryOperator, Expression, Scalar, TransformExpr, UnaryOperator, VariadicOperator,
};
use delta_log_replay::partition::{
    parse_bool, parse_date, parse_int_in, parse_partition_value, parse_timestamp,
};
use delta_log_replay::predicates::{
    compare_scalars, order_text, ColumnResolver, DefaultPredicateEvaluator,
};
use delta_log_replay::scan::log_replay::{AddRemoveDedupVisitor, PartitionResolver};
use delta_log_replay::log_replay::FileActionKeySet;
use delta_log_replay::schema::{ColumnName, DataType, MapType, PrimitiveType, StructField, StructType};
use std::collections::HashMap;

fn parse(raw: Option<&str>, t: PrimitiveType) -> Result<Scalar, Error> {
    let owned = raw.map(|s| s.to_string());
    parse_partition_value(owned.as_ref(), &DataType::Primitive(t))
}

fn name(path: &[&str]) -> ColumnName {
    ColumnName::new(path.iter().map(|s| s.to_string()).collect())
}

#[test]
fn dates_are_days_since_the_epoch() {
    assert_eq!(parse_date("1970-01-01"), Some(0));
    assert_eq!(parse_date("1970-01-02"), Some(1));
    assert_eq!(parse_date("1969-12-31"), Some(-1));
    assert_eq!(parse_date("2017-12-10"), Some(17510));
    assert_eq!(parse_date("2017-12-11"), Some(17511));
    assert_eq!(parse_date("2017-12-31"), Some(17531));
    assert_eq!(parse_date("2018-01-01"), Some(17532));
    assert_eq!(parse_date("2000-02-29"), Some(11016));
    assert_eq!(parse_date("2000-03-01"), Some(11017));
    assert_eq!(parse_date("0000-01-01"), Some(-719528));
    assert_eq!(parse_date("9999-12-31"), Some(2932896));
}

#[test]
fn days_that_the_calendar_lacks_are_no_dates() {
    assert_eq!(parse_date("2017-02-29"), None);
    assert_eq!(parse_date("1900-02-29"), None);
    assert_eq!(parse_date("2017-04-31"), None);
    assert_eq!(parse_date("2017-00-10"), None);
    assert_eq!(parse_date("2017-13-10"), None);
    assert_eq!(parse_date("2017-12-00"), None);
    assert_eq!(parse_date("2017-12-32"), None);
}

#[test]
fn dates_have_one_shape() {
    assert_eq!(parse_date("2017-12-1"), None);
    assert_eq!(parse_date("2017/12/10"), None);
    assert_eq!(parse_date("17-12-10"), None);
    assert_eq!(parse_date("2017-12-10 "), None);
    assert_eq!(parse_date("2017-1२-10"), None);
    assert_eq!(parse_date(""), None);
}

#[test]
fn timestamps_are_microseconds_since_the_epoch() {
    assert_eq!(parse_timestamp("1970-01-01 00:00:00"), Some(0));
    assert_eq!(parse_timestamp("1970-01-01 00:00:01"), Some(1_000_000));
    assert_eq!(parse_timestamp("1970-01-01 00:00:00.000001"), Some(1));
    assert_eq!(parse_timestamp("1970-01-01 00:00:00.5"), Some(500_000));
    assert_eq!(parse_timestamp("1970-01-01 00:00:00.123"), Some(123_000));
    assert_eq!(parse_timestamp("1969-12-31 23:59:59.999999"), Some(-1));
    assert_eq!(parse_timestamp("2017-12-10 01:02:03"), Some(1_512_867_723_000_000));
    assert_eq!(parse_timestamp("2017-12-10 23:59:59.999999"), Some(1_512_950_399_999_999));
    assert_eq!(parse_timestamp("9999-12-31 23:59:59.999999"), Some(253_402_300_799_999_999));
    assert_eq!(parse_timestamp("0000-01-01 00:00:00"), Some(-62_167_219_200_000_000));
}

#[test]
fn timestamps_have_one_shape() {
    assert_eq!(parse_timestamp("2017-12-10"), None);
    assert_eq!(parse_timestamp("2017-12-10T01:02:03"), None);
    assert_eq!(parse_timestamp("2017-12-10 24:00:00"), None);
    assert_eq!(parse_timestamp("2017-12-10 23:60:00"), None);
    assert_eq!(parse_timestamp("2017-12-10 23:59:60"), None);
    assert_eq!(parse_timestamp("2017-12-10 1:02:03"), None);
    assert_eq!(parse_timestamp("2017-12-10 01:02:03."), None);
    assert_eq!(parse_timestamp("2017-12-10 01:02:03.1234567"), None);
    assert_eq!(parse_timestamp("2017-12-10 01:02:03,5"), None);
    assert_eq!(parse_timestamp("2017-02-30 01:02:03"), None);
    assert_eq!(parse_timestamp("2017-12-10 01:02:03 "), None);
    assert_eq!(parse_timestamp("2017-12-10 01:02:03.12é"), None);
    assert_eq!(parse_timestamp(""), None);
}

#[test]
fn integers_are_signed_decimal_numerals() {
    assert_eq!(parse_int_in("0", -10, 10), Some(0));
    assert_eq!(parse_int_in("+7", -10, 10), Some(7));
    assert_eq!(parse_int_in("-7", -10, 10), Some(-7));
    assert_eq!(parse_int_in("007", -10, 10), Some(7));
    assert_eq!(parse_int_in("11", -10, 10), None);
    assert_eq!(parse_int_in("-11", -10, 10), None);
    assert_eq!(parse_int_in("", -10, 10), None);
    assert_eq!(parse_int_in("-", -10, 10), None);
    assert_eq!(parse_int_in("+", -10, 10), None);
    assert_eq!(parse_int_in("1 ", -10, 10), None);
    assert_eq!(parse_int_in("1.0", -10, 10), None);
    assert_eq!(parse_int_in("٣", -10, 10), None);
    assert_eq!(parse_int_in("9223372036854775807", i64::MIN, i64::MAX), Some(i64::MAX));
    assert_eq!(parse_int_in("-9223372036854775808", i64::MIN, i64::MAX), Some(i64::MIN));
    assert_eq!(parse_int_in("9223372036854775808", i64::MIN, i64::MAX), None);
    assert_eq!(parse_int_in("-9223372036854775809", i64::MIN, i64::MAX), None);
    assert_eq!(parse_int_in("99999999999999999999999999999999999999999", i64::MIN, i64::MAX), None);
    assert_eq!(parse_int_in("00000000000000000000000000000000000000012", i64::MIN, i64::MAX), Some(12));
}

#[test]
fn booleans_are_read_in_any_case() {
    assert_eq!(parse_bool("true"), Some(true));
    assert_eq!(parse_bool("TRUE"), Some(true));
    assert_eq!(parse_bool("False"), Some(false));
    assert_eq!(parse_bool("fALSE"), Some(false));
    assert_eq!(parse_bool("yes"), None);
    assert_eq!(parse_bool("tru"), None);
    assert_eq!(parse_bool("truee"), None);
    assert_eq!(parse_bool("t\u{212a}ue"), None);
}

#[test]
fn partition_values_are_parsed_by_type() {
    assert_eq!(parse(Some("abc"), PrimitiveType::String), Ok(Scalar::String("abc".to_string())));
    assert_eq!(parse(Some("12"), PrimitiveType::Long), Ok(Scalar::Long(12)));
    assert_eq!(parse(Some("-12"), PrimitiveType::Integer), Ok(Scalar::Integer(-12)));
    assert_eq!(parse(Some("300"), PrimitiveType::Short), Ok(Scalar::Short(300)));
    assert_eq!(parse(Some("-128"), PrimitiveType::Byte), Ok(Scalar::Byte(-128)));
    assert_eq!(parse(Some("true"), PrimitiveType::Boolean), Ok(Scalar::Boolean(true)));
    assert_eq!(parse(Some("2017-12-10"), PrimitiveType::Date), Ok(Scalar::Date(17510)));
    assert_eq!(
        parse(Some("1970-01-02 00:00:00.25"), PrimitiveType::Timestamp),
        Ok(Scalar::Timestamp(86_400_250_000))
    );
    assert_eq!(
        parse(Some("1970-01-02 00:00:00"), PrimitiveType::TimestampNtz),
        Ok(Scalar::TimestampNtz(86_400_000_000))
    );
}

#[test]
fn missing_and_empty_partition_values_are_null() {
    for t in [
        PrimitiveType::String,
        PrimitiveType::Long,
        PrimitiveType::Integer,
        PrimitiveType::Short,
        PrimitiveType::Byte,
        PrimitiveType::Boolean,
        PrimitiveType::Date,
        PrimitiveType::Timestamp,
        PrimitiveType::TimestampNtz,
    ] {
        assert_eq!(parse(None, t), Ok(Scalar::Null(t)));
        assert_eq!(parse(Some(""), t), Ok(Scalar::Null(t)));
    }
}

#[test]
fn malformed_partition_values_are_rejected() {
    assert_eq!(
        parse(Some("12x"), PrimitiveType::Long),
        Err(Error::InvalidPartitionValue(PrimitiveType::Long))
    );
    assert_eq!(
        parse(Some("2147483648"), PrimitiveType::Integer),
        Err(Error::InvalidPartitionValue(PrimitiveType::Integer))
    );
    assert_eq!(
        parse(Some("32768"), PrimitiveType::Short),
        Err(Error::InvalidPartitionValue(PrimitiveType::Short))
    );
    assert_eq!(
        parse(Some("128"), PrimitiveType::Byte),
        Err(Error::InvalidPartitionValue(PrimitiveType::Byte))
    );
    assert_eq!(
        parse(Some("maybe"), PrimitiveType::Boolean),
        Err(Error::InvalidPartitionValue(PrimitiveType::Boolean))
    );
    assert_eq!(
        parse(Some("yesterday"), PrimitiveType::Date),
        Err(Error::InvalidPartitionValue(PrimitiveType::Date))
    );
    assert_eq!(
        parse(Some("2017-12-10"), PrimitiveType::Timestamp),
        Err(Error::InvalidPartitionValue(PrimitiveType::Timestamp))
    );
    assert_eq!(
        parse(Some("now"), PrimitiveType::TimestampNtz),
        Err(Error::InvalidPartitionValue(PrimitiveType::TimestampNtz))
    );
}

#[test]
fn only_primitive_types_have_partition_values() {
    let map_type = DataType::MapOf(MapType::new(PrimitiveType::String, PrimitiveType::String, true));
    assert_eq!(parse_partition_value(None, &map_type), Err(Error::Generic));
    let text = "x".to_string();
    assert_eq!(parse_partition_value(Some(&text), &map_type), Err(Error::Generic));
}

#[test]
fn texts_are_ordered_by_their_characters() {
    assert_eq!(order_text("", ""), 0);
    assert_eq!(order_text("", "a"), -1);
    assert_eq!(order_text("a", ""), 1);
    assert_eq!(order_text("abc", "abd"), -1);
    assert_eq!(order_text("abd", "abc"), 1);
    assert_eq!(order_text("abc", "abc"), 0);
    assert_eq!(order_text("ab", "abc"), -1);
    assert_eq!(order_text("é", "z"), 1);
    assert_eq!(order_text("2017-12-10", "2017-12-9"), -1);
}

#[test]
fn scalars_of_one_type_compare() {
    assert_eq!(compare_scalars(BinaryOperator::LessThan, &Scalar::Integer(1), &Scalar::Integer(2)), Some(true));
    assert_eq!(compare_scalars(BinaryOperator::GreaterThanOrEqual, &Scalar::Long(2), &Scalar::Long(2)), Some(true));
    assert_eq!(compare_scalars(BinaryOperator::NotEqual, &Scalar::Date(2), &Scalar::Date(2)), Some(false));
    assert_eq!(
        compare_scalars(BinaryOperator::LessThanOrEqual, &Scalar::Boolean(true), &Scalar::Boolean(false)),
        Some(false)
    );
    assert_eq!(
        compare_scalars(BinaryOperator::Equal, &Scalar::String("a".into()), &Scalar::String("a".into())),
        Some(true)
    );
    assert_eq!(compare_scalars(BinaryOperator::GreaterThan, &Scalar::Short(3), &Scalar::Short(-3)), Some(true));
    assert_eq!(compare_scalars(BinaryOperator::Equal, &Scalar::Byte(3), &Scalar::Byte(3)), Some(true));
    assert_eq!(
        compare_scalars(BinaryOperator::LessThan, &Scalar::Timestamp(3), &Scalar::Timestamp(4)),
        Some(true)
    );
    assert_eq!(
        compare_scalars(
            BinaryOperator::GreaterThan,
            &Scalar::TimestampNtz(3),
            &Scalar::TimestampNtz(4)
        ),
        Some(false)
    );
    assert_eq!(
        compare_scalars(BinaryOperator::Equal, &Scalar::Timestamp(3), &Scalar::TimestampNtz(3)),
        None
    );
}

#[test]
fn scalars_of_different_types_and_nulls_do_not_compare() {
    assert_eq!(compare_scalars(BinaryOperator::Equal, &Scalar::Integer(1), &Scalar::Long(1)), None);
    assert_eq!(
        compare_scalars(BinaryOperator::Equal, &Scalar::Null(PrimitiveType::Long), &Scalar::Long(1)),
        None
    );
    assert_eq!(
        compare_scalars(
            BinaryOperator::Equal,
            &Scalar::Null(PrimitiveType::Long),
            &Scalar::Null(PrimitiveType::Long)
        ),
        None
    );
}

fn values(entries: Vec<(usize, &str, Scalar)>) -> HashMap<usize, (String, Scalar)> {
    entries.into_iter().map(|(i, n, v)| (i, (n.to_string(), v))).collect()
}

fn column(n: &str) -> Box<Expression> {
    Box::new(Expression::Column(name(&[n])))
}

fn literal(s: Scalar) -> Box<Expression> {
    Box::new(Expression::Literal(s))
}

#[test]
fn partition_columns_resolve_by_their_physical_name() {
    let parsed = values(vec![(3, "date", Scalar::Date(5)), (1, "region", Scalar::String("eu".into()))]);
    let resolver = PartitionResolver { values: &parsed };
    assert_eq!(resolver.resolve_column(&name(&["date"])), Some(Scalar::Date(5)));
    assert_eq!(resolver.resolve_column(&name(&["region"])), Some(Scalar::String("eu".into())));
    assert_eq!(resolver.resolve_column(&name(&["value"])), None);
    assert_eq!(resolver.resolve_column(&name(&["a", "date"])), None);
}

#[test]
fn of_two_fields_with_one_name_the_lesser_index_counts() {
    let parsed = values(vec![(7, "p", Scalar::Long(70)), (2, "p", Scalar::Long(20)), (4, "p", Scalar::Long(40))]);
    let resolver = PartitionResolver { values: &parsed };
    assert_eq!(resolver.resolve_column(&name(&["p"])), Some(Scalar::Long(20)));
}

fn evaluate(parsed: &HashMap<usize, (String, Scalar)>, e: &Expression) -> (Option<bool>, Option<bool>) {
    let evaluator = DefaultPredicateEvaluator::new(PartitionResolver { values: parsed });
    (evaluator.eval_expr(e), evaluator.eval_sql_where(e))
}

#[test]
fn predicates_in_three_valued_logic() {
    let parsed = values(vec![
        (0, "a", Scalar::Long(5)),
        (1, "n", Scalar::Null(PrimitiveType::Long)),
        (2, "b", Scalar::Boolean(true)),
    ]);
    let lt = |c: &str, v: i64| Expression::Binary(BinaryOperator::LessThan, column(c), literal(Scalar::Long(v)));
    // comparisons
    assert_eq!(evaluate(&parsed, &lt("a", 6)), (Some(true), Some(true)));
    assert_eq!(evaluate(&parsed, &lt("a", 5)), (Some(false), Some(false)));
    // an unknown column decides nothing
    assert_eq!(evaluate(&parsed, &lt("x", 5)), (None, None));
    // a null operand is unknown as a predicate and false as a filter
    assert_eq!(evaluate(&parsed, &lt("n", 5)), (None, Some(false)));
    // literal on the left
    let gt = Expression::Binary(BinaryOperator::GreaterThan, literal(Scalar::Long(6)), column("a"));
    assert_eq!(evaluate(&parsed, &gt), (Some(true), Some(true)));
    // boolean column and literal
    assert_eq!(evaluate(&parsed, &Expression::Column(name(&["b"]))), (Some(true), Some(true)));
    assert_eq!(evaluate(&parsed, &Expression::Column(name(&["a"]))), (None, None));
    assert_eq!(evaluate(&parsed, &Expression::Literal(Scalar::Boolean(false))), (Some(false), Some(false)));
    assert_eq!(evaluate(&parsed, &Expression::Literal(Scalar::Long(1))), (None, None));
    assert_eq!(evaluate(&parsed, &Expression::Struct(vec![])), (None, None));
    // not, is null
    let not = |e: Expression| Expression::Unary(UnaryOperator::Not, Box::new(e));
    assert_eq!(evaluate(&parsed, &not(lt("a", 6))), (Some(false), Some(false)));
    assert_eq!(evaluate(&parsed, &not(lt("x", 6))), (None, None));
    let is_null = |c: &str| Expression::Unary(UnaryOperator::IsNull, column(c));
    assert_eq!(evaluate(&parsed, &is_null("n")), (Some(true), Some(true)));
    assert_eq!(evaluate(&parsed, &is_null("a")), (Some(false), Some(false)));
    assert_eq!(evaluate(&parsed, &is_null("x")), (None, None));
    // and, or
    let and = |es: Vec<Expression>| Expression::Variadic(VariadicOperator::And, es);
    let or = |es: Vec<Expression>| Expression::Variadic(VariadicOperator::Or, es);
    assert_eq!(evaluate(&parsed, &and(vec![])), (Some(true), Some(true)));
    assert_eq!(evaluate(&parsed, &or(vec![])), (Some(false), Some(false)));
    assert_eq!(evaluate(&parsed, &and(vec![lt("a", 6), lt("x", 1)])), (None, None));
    assert_eq!(evaluate(&parsed, &and(vec![lt("x", 1), lt("a", 5)])), (Some(false), Some(false)));
    assert_eq!(evaluate(&parsed, &or(vec![lt("x", 1), lt("a", 6)])), (Some(true), Some(true)));
    assert_eq!(evaluate(&parsed, &or(vec![lt("x", 1), lt("a", 5)])), (None, None));
    // below a conjunction a filter stays a filter, below a disjunction it does not
    assert_eq!(evaluate(&parsed, &and(vec![lt("a", 6), lt("n", 1)])), (None, Some(false)));
    assert_eq!(evaluate(&parsed, &or(vec![lt("a", 5), lt("n", 1)])), (None, None));
}

fn pruned(filter: Option<&Expression>, parsed: &HashMap<usize, (String, Scalar)>) -> bool {
    let schema = StructType::new(vec![]);
    let mut seen = FileActionKeySet::new();
    let visitor = AddRemoveDedupVisitor::new(&mut seen, vec![], &schema, None, filter, true);
    visitor.is_file_partition_pruned(parsed)
}

#[test]
fn a_file_is_pruned_only_where_the_filter_is_false() {
    let lt = |c: &str, v: i32| Expression::Binary(BinaryOperator::LessThan, column(c), literal(Scalar::Date(v)));
    let parsed = values(vec![(1, "date", Scalar::Date(17510))]);
    assert!(pruned(Some(&lt("date", 17510)), &parsed));
    assert!(!pruned(Some(&lt("date", 17511)), &parsed));
    // a filter over another column decides nothing
    assert!(!pruned(Some(&lt("value", 3)), &parsed));
    // no filter, or no partition values
    assert!(!pruned(None, &parsed));
    assert!(!pruned(Some(&lt("date", 17510)), &HashMap::new()));
    // a null partition value fails a comparison
    let null = values(vec![(1, "date", Scalar::Null(PrimitiveType::Date))]);
    assert!(pruned(Some(&lt("date", 17510)), &null));
}

#[test]
fn partition_values_are_parsed_for_the_slots_of_the_transform() {
    let schema = StructType::new(vec![
        StructField::new("value".to_string(), DataType::Primitive(PrimitiveType::Integer), true),
        StructField {
            name: "date".to_string(),
            data_type: DataType::Primitive(PrimitiveType::Date),
            nullable: true,
            physical_name: Some("col-1".to_string()),
        },
        StructField::new("region".to_string(), DataType::Primitive(PrimitiveType::String), true),
    ]);
    let mut seen = FileActionKeySet::new();
    let visitor = AddRemoveDedupVisitor::new(&mut seen, vec![], &schema, None, None, true);
    let raw = vec![
        ("col-1".to_string(), "2017-12-10".to_string()),
        ("date".to_string(), "1970-01-01".to_string()),
        ("col-1".to_string(), "2017-12-11".to_string()),
    ];
    assert_eq!(
        visitor.parse_partition_value(1, &raw),
        Ok((1, ("col-1".to_string(), Scalar::Date(17511))))
    );
    assert_eq!(
        visitor.parse_partition_value(2, &raw),
        Ok((2, ("region".to_string(), Scalar::Null(PrimitiveType::String))))
    );
    assert_eq!(
        visitor.parse_partition_value(3, &raw),
        Err(Error::InternalError(delta_log_replay::error::Violation::PartitionFieldOutOfBounds(3)))
    );
    let transform = vec![
        TransformExpr::Static(Expression::Column(name(&["value"]))),
        TransformExpr::Partition(2),
        TransformExpr::Partition(1),
    ];
    let parsed = visitor.parse_partition_values(&transform, &raw).unwrap();
    assert_eq!(parsed.len(), 2);
    assert_eq!(parsed.get(&1), Some(&("col-1".to_string(), Scalar::Date(17511))));
    assert_eq!(parsed.get(&2), Some(&("region".to_string(), Scalar::Null(PrimitiveType::String))));
    let expr = visitor.get_transform_expr(&transform, parsed).unwrap();
    assert_eq!(
        expr,
        Expression::Struct(vec![
            Expression::Column(name(&["value"])),
            Expression::Literal(Scalar::Null(PrimitiveType::String)),
            Expression::Literal(Scalar::Date(17511)),
        ])
    );
    // the first slot that fails decides
    let failing = vec![TransformExpr::Partition(9), TransformExpr::Partition(1)];
    let bad = vec![("col-1".to_string(), "nonsense".to_string())];
    assert_eq!(
        visitor.parse_partition_values(&failing, &bad).err(),
        Some(Error::InternalError(delta_log_replay::error::Violation::PartitionFieldOutOfBounds(9)))
    );
    let failing = vec![TransformExpr::Partition(1), TransformExpr::Partition(9)];
    assert_eq!(
        visitor.parse_partition_values(&failing, &bad).err(),
        Some(Error::InvalidPartitionValue(PrimitiveType::Date))
    );
    // a slot without a value
    assert_eq!(
        visitor.get_transform_expr(&transform, HashMap::new()).err(),
        Some(Error::InternalError(delta_log_replay::error::Violation::MissingPartitionValue(2)))
    );
}
