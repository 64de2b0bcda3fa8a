use delta_log_replay::engine_data::{lookup, ActionBatch, Column};
use delta_log_replay::error::{DeltaResult, Error, Violation};
use delta_log_replay::expressions::{
    BinaryOperator, Expression, Scalar, Transform, TransformExpr,
};
use delta_log_replay::log_replay::{unique_id_from_parts, FileActionKey, FileActionKeySet};
use delta_log_replay::scan::log_replay::{
    scan_action_iter, AddRemoveDedupVisitor, LogReplayScanner, ScanData,
};
use delta_log_replay::scan::scan_row::{get_add_transform_expr, scan_row_schema, scan_rows};
use delta_log_replay::schema::{
    ColumnName, DataType, MapType, PrimitiveType, StructField, StructType,
};

const STATS: &str = "{\"numRecords\":10,\"nullCount\":{\"value\":0},\"minValues\":{\"value\":1},\"maxValues\":{\"value\":10}}";
const C000: &str = "part-00000-fae5310a-a37d-4e51-827b-c3d5516560ca-c000.snappy.parquet";
const C001: &str = "part-00000-fae5310a-a37d-4e51-827b-c3d5516560ca-c001.snappy.parquet";

#[derive(Clone)]
struct Dv {
    storage_type: &'static str,
    path_or_inline_dv: &'static str,
    offset: Option<i32>,
    size_in_bytes: i32,
    cardinality: i64,
}

#[derive(Clone)]
enum Row {
    Add {
        path: &'static str,
        partition_values: Vec<(&'static str, &'static str)>,
        dv: Option<Dv>,
    },
    Remove {
        path: &'static str,
        dv: Option<Dv>,
    },
    Other,
}

fn name(path: &[&str]) -> ColumnName {
    ColumnName::new(path.iter().map(|s| s.to_string()).collect())
}

fn sample_dv() -> Dv {
    Dv {
        storage_type: "u",
        path_or_inline_dv: "vBn[lx{q8@P<9BNH/isA",
        offset: Some(1),
        size_in_bytes: 36,
        cardinality: 2,
    }
}

fn add(path: &'static str, partition_values: Vec<(&'static str, &'static str)>) -> Row {
    Row::Add { path, partition_values, dv: None }
}

fn add_with_dv(path: &'static str, partition_values: Vec<(&'static str, &'static str)>) -> Row {
    Row::Add { path, partition_values, dv: Some(sample_dv()) }
}

fn remove(path: &'static str) -> Row {
    Row::Remove { path, dv: None }
}

fn add_dv(row: &Row) -> Option<Dv> {
    match row {
        Row::Add { dv, .. } => dv.clone(),
        _ => None,
    }
}

fn remove_dv(row: &Row) -> Option<Dv> {
    match row {
        Row::Remove { dv, .. } => dv.clone(),
        _ => None,
    }
}

fn is_add(row: &Row) -> bool {
    matches!(row, Row::Add { .. })
}

/// The columns of a batch of a commit, as a reader of the log delivers them.
fn columns_of(rows: &[Row], with_removes: bool) -> Vec<(ColumnName, Column)> {
    let mut columns = vec![
        (
            name(&["add", "path"]),
            Column::Str(
                rows.iter()
                    .map(|r| match r {
                        Row::Add { path, .. } => Some(path.to_string()),
                        _ => None,
                    })
                    .collect(),
            ),
        ),
        (
            name(&["add", "partitionValues"]),
            Column::StrMap(
                rows.iter()
                    .map(|r| match r {
                        Row::Add { partition_values, .. } => Some(
                            partition_values
                                .iter()
                                .map(|(k, v)| (k.to_string(), v.to_string()))
                                .collect(),
                        ),
                        _ => None,
                    })
                    .collect(),
            ),
        ),
        (
            name(&["add", "size"]),
            Column::Long(rows.iter().map(|r| if is_add(r) { Some(635) } else { None }).collect()),
        ),
        (
            name(&["add", "modificationTime"]),
            Column::Long(
                rows.iter()
                    .map(|r| if is_add(r) { Some(1677811178336) } else { None })
                    .collect(),
            ),
        ),
        (
            name(&["add", "stats"]),
            Column::Str(
                rows.iter()
                    .map(|r| if is_add(r) { Some(STATS.to_string()) } else { None })
                    .collect(),
            ),
        ),
        (
            name(&["add", "deletionVector", "storageType"]),
            Column::Str(
                rows.iter().map(|r| add_dv(r).map(|d| d.storage_type.to_string())).collect(),
            ),
        ),
        (
            name(&["add", "deletionVector", "pathOrInlineDv"]),
            Column::Str(
                rows.iter().map(|r| add_dv(r).map(|d| d.path_or_inline_dv.to_string())).collect(),
            ),
        ),
        (
            name(&["add", "deletionVector", "offset"]),
            Column::Int(rows.iter().map(|r| add_dv(r).and_then(|d| d.offset)).collect()),
        ),
        (
            name(&["add", "deletionVector", "sizeInBytes"]),
            Column::Int(rows.iter().map(|r| add_dv(r).map(|d| d.size_in_bytes)).collect()),
        ),
        (
            name(&["add", "deletionVector", "cardinality"]),
            Column::Long(rows.iter().map(|r| add_dv(r).map(|d| d.cardinality)).collect()),
        ),
    ];
    if with_removes {
        columns.push((
            name(&["remove", "path"]),
            Column::Str(
                rows.iter()
                    .map(|r| match r {
                        Row::Remove { path, .. } => Some(path.to_string()),
                        _ => None,
                    })
                    .collect(),
            ),
        ));
        columns.push((
            name(&["remove", "deletionVector", "storageType"]),
            Column::Str(
                rows.iter().map(|r| remove_dv(r).map(|d| d.storage_type.to_string())).collect(),
            ),
        ));
        columns.push((
            name(&["remove", "deletionVector", "pathOrInlineDv"]),
            Column::Str(
                rows.iter()
                    .map(|r| remove_dv(r).map(|d| d.path_or_inline_dv.to_string()))
                    .collect(),
            ),
        ));
        columns.push((
            name(&["remove", "deletionVector", "offset"]),
            Column::Int(rows.iter().map(|r| remove_dv(r).and_then(|d| d.offset)).collect()),
        ));
    }
    columns
}

fn batch_of(num_rows: usize, columns: Vec<(ColumnName, Column)>) -> ActionBatch {
    let mut batch = ActionBatch::new(num_rows);
    for (name, column) in columns {
        batch = batch.with_column(name, column).expect("a column of the batch's length");
    }
    batch
}

fn log_batch(rows: &[Row]) -> ActionBatch {
    batch_of(rows.len(), columns_of(rows, true))
}

fn checkpoint_batch(rows: &[Row]) -> ActionBatch {
    batch_of(rows.len(), columns_of(rows, false))
}

fn add_batch_simple() -> ActionBatch {
    log_batch(&[add_with_dv(C000, vec![("date", "2017-12-10")]), Row::Other])
}

fn add_batch_with_remove() -> ActionBatch {
    log_batch(&[
        remove(C001),
        add(C001, vec![]),
        add_with_dv(C000, vec![("date", "2017-12-10")]),
        Row::Other,
    ])
}

fn add_batch_with_partition_col() -> ActionBatch {
    log_batch(&[
        Row::Other,
        add(C001, vec![("date", "2017-12-11")]),
        Row::Other,
        add(C000, vec![("date", "2017-12-10")]),
    ])
}

fn str_at(batch: &ActionBatch, path: &[&str], i: usize) -> Option<String> {
    match batch.column(&name(path)) {
        Some(Column::Str(v)) => v[i].clone(),
        other => panic!("no string column {:?}: {:?}", path, other),
    }
}

fn long_at(batch: &ActionBatch, path: &[&str], i: usize) -> Option<i64> {
    match batch.column(&name(path)) {
        Some(Column::Long(v)) => v[i],
        other => panic!("no long column {:?}: {:?}", path, other),
    }
}

fn map_at(batch: &ActionBatch, path: &[&str], i: usize) -> Vec<(String, String)> {
    match batch.column(&name(path)) {
        Some(Column::StrMap(v)) => v[i].clone().unwrap_or_default(),
        other => panic!("no map column {:?}: {:?}", path, other),
    }
}

fn num_records(stats: &str) -> i64 {
    let parsed: serde_json::Value = serde_json::from_str(stats).unwrap();
    parsed.get("numRecords").and_then(|n| n.as_i64()).unwrap()
}

fn validate_simple(
    path: &str,
    size: i64,
    stats: Option<String>,
    _transform: Option<&Expression>,
    part_vals: Vec<(String, String)>,
) {
    assert_eq!(path, "part-00000-fae5310a-a37d-4e51-827b-c3d5516560ca-c000.snappy.parquet");
    assert_eq!(size, 635);
    assert!(stats.is_some());
    assert_eq!(num_records(stats.as_ref().unwrap()), 10);
    assert_eq!(lookup(&part_vals, &"date".to_string()), Some(&"2017-12-10".to_string()));
    assert_eq!(lookup(&part_vals, &"non-existent".to_string()), None);
}

/// Replays the batches as batches of commits, checks the selection vector
/// of each result, and hands every selected scan row to `validate`.
fn run_with_validate_callback(
    batches: Vec<ActionBatch>,
    logical_schema: Option<StructType>,
    transform: Option<Transform>,
    expected_sel_vec: &[bool],
    validate: fn(&str, i64, Option<String>, Option<&Expression>, Vec<(String, String)>),
) {
    let logical_schema = logical_schema.unwrap_or_else(|| StructType::new(vec![]));
    let results = scan_action_iter(
        batches.into_iter().map(|batch| Ok((batch, true))).collect(),
        &logical_schema,
        transform.as_ref(),
        None,
    );
    let mut batch_count = 0;
    for res in results {
        let (batch, sel, transforms): ScanData = res.unwrap();
        assert_eq!(sel, expected_sel_vec);
        for (i, selected) in sel.iter().enumerate() {
            if *selected {
                let path = str_at(&batch, &["path"], i).unwrap();
                let size = long_at(&batch, &["size"], i).unwrap();
                let stats = str_at(&batch, &["stats"], i);
                let part_vals = map_at(&batch, &["fileConstantValues", "partitionValues"], i);
                let transform = transforms.get(i).and_then(|t| t.as_ref());
                validate(&path, size, stats, transform, part_vals);
            }
        }
        batch_count += 1;
    }
    assert_eq!(batch_count, 1);
}

#[test]
fn test_scan_action_iter() {
    run_with_validate_callback(
        vec![add_batch_simple()],
        None, // not testing schema
        None, // not testing transform
        &[true, false],
        validate_simple,
    );
}

#[test]
fn test_scan_action_iter_with_remove() {
    run_with_validate_callback(
        vec![add_batch_with_remove()],
        None, // not testing schema
        None, // not testing transform
        &[false, false, true, false],
        validate_simple,
    );
}

#[test]
fn test_no_transforms() {
    let batch = vec![add_batch_simple()];
    let logical_schema = StructType::new(vec![]);
    let iter = scan_action_iter(
        batch.into_iter().map(|batch| Ok((batch, true))).collect(),
        &logical_schema,
        None,
        None,
    );
    let mut seen_results = 0;
    for res in iter {
        let (_batch, _sel, transforms) = res.unwrap();
        assert!(transforms.is_empty(), "Should have no transforms");
        seen_results += 1;
    }
    assert_eq!(seen_results, 1);
}

fn value_and_date_schema() -> StructType {
    StructType::new(vec![
        StructField::new("value".to_string(), DataType::Primitive(PrimitiveType::Integer), true),
        StructField::new("date".to_string(), DataType::Primitive(PrimitiveType::Date), true),
    ])
}

/// The transform of a table with the data column `value` and the partition
/// column `date`.
fn static_transform() -> Transform {
    vec![
        TransformExpr::Static(Expression::Column(name(&["value"]))),
        TransformExpr::Partition(1),
    ]
}

fn validate_transform(transform: Option<&Expression>, expected_date_offset: i32) {
    assert!(transform.is_some());
    let Expression::Struct(inner) = transform.unwrap() else {
        panic!("Transform should always be a struct expr");
    };
    assert_eq!(inner.len(), 2, "expected two items in transform struct");

    let Expression::Column(ref column) = inner[0] else {
        panic!("Expected first expression to be a column");
    };
    assert_eq!(column, &name(&["value"]), "First col should be 'value'");

    let Expression::Literal(ref scalar) = inner[1] else {
        panic!("Expected second expression to be a literal");
    };
    assert_eq!(scalar, &Scalar::Date(expected_date_offset), "Didn't get expected date offset");
}

#[test]
fn test_simple_transform() {
    let schema = value_and_date_schema();
    let static_transform = Some(static_transform());
    let batch = vec![add_batch_with_partition_col()];
    let iter = scan_action_iter(
        batch.into_iter().map(|batch| Ok((batch, true))).collect(),
        &schema,
        static_transform.as_ref(),
        None,
    );
    let mut seen_results = 0;
    for res in iter {
        let (_batch, _sel, transforms) = res.unwrap();
        // in this case we have a metadata action first and protocol 3rd, so we expect 4 items,
        // the first and 3rd being a `None`
        assert_eq!(transforms.len(), 4, "Should have 4 transforms");
        assert!(transforms[0].is_none(), "transform at [0] should be None");
        assert!(transforms[2].is_none(), "transform at [2] should be None");
        validate_transform(transforms[1].as_ref(), 17511);
        validate_transform(transforms[3].as_ref(), 17510);
        seen_results += 1;
    }
    assert_eq!(seen_results, 1);
}

#[test]
fn transform_of_a_batch_with_dates_around_new_year() {
    let schema = value_and_date_schema();
    let transform = static_transform();
    let batch = log_batch(&[
        Row::Other,
        add(C001, vec![("date", "2018-01-01")]),
        Row::Other,
        add(C000, vec![("date", "2017-12-31")]),
    ]);
    let results = scan_action_iter(vec![Ok((batch, true))], &schema, Some(&transform), None);
    assert_eq!(results.len(), 1);
    let (_batch, sel, transforms) = results.into_iter().next().unwrap().unwrap();
    assert_eq!(sel, vec![false, true, false, true]);
    assert_eq!(transforms.len(), 4);
    assert!(transforms[0].is_none());
    assert!(transforms[2].is_none());
    validate_transform(transforms[1].as_ref(), 17532);
    validate_transform(transforms[3].as_ref(), 17531);
}

#[test]
fn eight_rows_with_removes_and_duplicates() {
    let batch = log_batch(&[
        remove(C001),
        add(C001, vec![]),
        add_with_dv(C000, vec![("date", "2017-12-10")]),
        Row::Other,
        add_with_dv(C000, vec![("date", "2017-12-10")]),
        add(C000, vec![("date", "2017-12-10")]),
        remove("other.parquet"),
        add("other.parquet", vec![]),
    ]);
    let schema = StructType::new(vec![]);
    let results = scan_action_iter(vec![Ok((batch, true))], &schema, None, None);
    assert_eq!(results.len(), 1);
    let (_batch, sel, transforms) = results.into_iter().next().unwrap().unwrap();
    // The same path without a deletion vector is another file than with one.
    assert_eq!(sel, vec![false, false, true, false, false, true, false, false]);
    assert!(transforms.is_empty());
}

#[test]
fn a_file_seen_in_a_commit_is_ignored_in_older_batches() {
    let newest = log_batch(&[remove(C001), add(C000, vec![])]);
    let older = log_batch(&[add(C001, vec![]), add(C000, vec![]), add("third.parquet", vec![])]);
    let checkpoint = checkpoint_batch(&[add(C001, vec![]), add("fourth.parquet", vec![])]);
    let schema = StructType::new(vec![]);
    let results = scan_action_iter(
        vec![Ok((newest, true)), Ok((older, true)), Ok((checkpoint, false))],
        &schema,
        None,
        None,
    );
    let sels: Vec<Vec<bool>> = results.into_iter().map(|r| r.unwrap().1).collect();
    assert_eq!(
        sels,
        vec![vec![false, true], vec![false, false, true], vec![false, true]]
    );
}

#[test]
fn batches_without_a_selected_row_are_not_handed_out() {
    let newest = log_batch(&[add(C000, vec![])]);
    let nothing_new = log_batch(&[add(C000, vec![]), Row::Other]);
    let schema = StructType::new(vec![]);
    let results = scan_action_iter(
        vec![Ok((newest, true)), Ok((nothing_new, true))],
        &schema,
        None,
        None,
    );
    assert_eq!(results.len(), 1);
    assert_eq!(results[0].as_ref().unwrap().1, vec![true]);
}

#[test]
fn a_batch_without_a_selected_row_is_dropped_with_its_transforms() {
    // Both adds are pruned by the partition filter, so nothing is selected
    // and the batch is not handed out.
    let schema = value_and_date_schema();
    let transform = static_transform();
    let filter = Expression::Binary(
        BinaryOperator::GreaterThan,
        Box::new(Expression::Column(name(&["date"]))),
        Box::new(Expression::Literal(Scalar::Date(20000))),
    );
    let predicate_schema = value_and_date_schema();
    let results = scan_action_iter(
        vec![Ok((add_batch_with_partition_col(), true))],
        &schema,
        Some(&transform),
        Some((filter, predicate_schema)),
    );
    assert!(results.is_empty());
}

#[test]
fn removes_in_a_checkpoint_are_not_read() {
    // A checkpoint batch has the columns of adds only.
    let checkpoint = checkpoint_batch(&[add(C000, vec![]), Row::Other]);
    let schema = StructType::new(vec![]);
    let results = scan_action_iter(vec![Ok((checkpoint, false))], &schema, None, None);
    assert_eq!(results.len(), 1);
    assert_eq!(results[0].as_ref().unwrap().1, vec![true, false]);
}

#[test]
fn a_failure_of_the_reader_is_handed_on() {
    let schema = StructType::new(vec![]);
    let results = scan_action_iter(
        vec![Err(Error::Engine(7)), Ok((add_batch_simple(), true))],
        &schema,
        None,
        None,
    );
    assert_eq!(results.len(), 2);
    assert_eq!(results[0].as_ref().err(), Some(&Error::Engine(7)));
    assert_eq!(results[1].as_ref().unwrap().1, vec![true, false]);
}

#[test]
fn a_commit_batch_without_the_columns_of_removes_fails() {
    let batch = checkpoint_batch(&[add(C000, vec![])]);
    let schema = StructType::new(vec![]);
    let results = scan_action_iter(vec![Ok((batch, true))], &schema, None, None);
    assert_eq!(results.len(), 1);
    assert_eq!(results[0].as_ref().err(), Some(&Error::MissingColumn(5)));
}

#[test]
fn a_path_column_of_integers_is_an_unexpected_type() {
    let mut columns = columns_of(&[add(C000, vec![])], true);
    columns[0] = (name(&["add", "path"]), Column::Int(vec![Some(1)]));
    let batch = batch_of(1, columns);
    let schema = StructType::new(vec![]);
    let results = scan_action_iter(vec![Ok((batch, true))], &schema, None, None);
    assert_eq!(results[0].as_ref().err(), Some(&Error::UnexpectedColumnType));
}

#[test]
fn an_add_without_partition_values_is_missing_data() {
    let mut columns = columns_of(&[add(C000, vec![])], true);
    columns[1] = (name(&["add", "partitionValues"]), Column::StrMap(vec![None]));
    let batch = batch_of(1, columns);
    let schema = value_and_date_schema();
    let transform = static_transform();
    let results = scan_action_iter(vec![Ok((batch, true))], &schema, Some(&transform), None);
    assert_eq!(results[0].as_ref().err(), Some(&Error::MissingData));
}

#[test]
fn a_deletion_vector_without_a_path_is_missing_data() {
    let mut columns = columns_of(&[add_with_dv(C000, vec![])], true);
    columns[6] = (name(&["add", "deletionVector", "pathOrInlineDv"]), Column::Str(vec![None]));
    let batch = batch_of(1, columns);
    let schema = StructType::new(vec![]);
    let results = scan_action_iter(vec![Ok((batch, true))], &schema, None, None);
    assert_eq!(results[0].as_ref().err(), Some(&Error::MissingData));
}

#[test]
fn a_malformed_date_is_an_invalid_partition_value() {
    let batch = log_batch(&[add(C000, vec![("date", "2017-02-30")])]);
    let schema = value_and_date_schema();
    let transform = static_transform();
    let results = scan_action_iter(vec![Ok((batch, true))], &schema, Some(&transform), None);
    assert_eq!(
        results[0].as_ref().err(),
        Some(&Error::InvalidPartitionValue(PrimitiveType::Date))
    );
}

#[test]
fn a_partition_slot_beyond_the_schema_is_an_internal_error() {
    let batch = log_batch(&[add(C000, vec![("date", "2017-12-10")])]);
    let schema = value_and_date_schema();
    let transform: Transform = vec![TransformExpr::Partition(5)];
    let results = scan_action_iter(vec![Ok((batch, true))], &schema, Some(&transform), None);
    assert_eq!(
        results[0].as_ref().err(),
        Some(&Error::InternalError(Violation::PartitionFieldOutOfBounds(5)))
    );
}

#[test]
fn a_partition_value_can_be_used_once() {
    let batch = log_batch(&[add(C000, vec![("date", "2017-12-10")])]);
    let schema = value_and_date_schema();
    let transform: Transform = vec![TransformExpr::Partition(1), TransformExpr::Partition(1)];
    let results = scan_action_iter(vec![Ok((batch, true))], &schema, Some(&transform), None);
    assert_eq!(
        results[0].as_ref().err(),
        Some(&Error::InternalError(Violation::MissingPartitionValue(1)))
    );
}

#[test]
fn a_partition_column_of_a_map_type_cannot_be_parsed() {
    let batch = log_batch(&[add(C000, vec![("date", "2017-12-10")])]);
    let map_type = MapType::new(PrimitiveType::String, PrimitiveType::String, true);
    let schema = StructType::new(vec![StructField::new(
        "date".to_string(),
        DataType::MapOf(map_type),
        true,
    )]);
    let transform: Transform = vec![TransformExpr::Partition(0)];
    let results = scan_action_iter(vec![Ok((batch, true))], &schema, Some(&transform), None);
    assert_eq!(results[0].as_ref().err(), Some(&Error::Generic));
}

#[test]
fn a_visitor_with_the_wrong_number_of_getters_fails() {
    let mut seen = FileActionKeySet::new();
    let schema = StructType::new(vec![]);
    let mut visitor =
        AddRemoveDedupVisitor::new(&mut seen, vec![true], &schema, None, None, true);
    let path = Column::Str(vec![Some(C000.to_string())]);
    let getters: Vec<&Column> = vec![&path, &path, &path];
    assert_eq!(
        visitor.visit(1, &getters),
        Err(Error::InternalError(Violation::WrongGetterCount(3)))
    );
}

#[test]
fn a_visitor_selects_nine_columns_of_a_commit_and_five_of_a_checkpoint() {
    let schema = StructType::new(vec![]);
    let mut seen = FileActionKeySet::new();
    let visitor = AddRemoveDedupVisitor::new(&mut seen, vec![], &schema, None, None, true);
    let (names, types) = visitor.selected_column_names_and_types();
    assert_eq!(names.len(), 9);
    assert_eq!(types.len(), 9);
    assert_eq!(names[0], name(&["add", "path"]));
    assert_eq!(names[1], name(&["add", "partitionValues"]));
    assert_eq!(names[4], name(&["add", "deletionVector", "offset"]));
    assert_eq!(names[5], name(&["remove", "path"]));
    assert_eq!(names[8], name(&["remove", "deletionVector", "offset"]));
    assert_eq!(types[0], DataType::Primitive(PrimitiveType::String));
    assert_eq!(
        types[1],
        DataType::MapOf(MapType::new(PrimitiveType::String, PrimitiveType::String, true))
    );
    assert_eq!(types[4], DataType::Primitive(PrimitiveType::Integer));

    let mut seen = FileActionKeySet::new();
    let visitor = AddRemoveDedupVisitor::new(&mut seen, vec![], &schema, None, None, false);
    let (names, types) = visitor.selected_column_names_and_types();
    assert_eq!(names.len(), 5);
    assert_eq!(types.len(), 5);
    assert_eq!(names[4], name(&["add", "deletionVector", "offset"]));
}

#[test]
fn the_visitor_narrows_the_selection_it_was_given() {
    // Row 1 was deselected before the visit: it is neither visited nor
    // recorded, so the older copy in row 2 survives.
    let batch = log_batch(&[add(C000, vec![]), add(C001, vec![]), add(C001, vec![])]);
    let schema = StructType::new(vec![]);
    let mut seen = FileActionKeySet::new();
    let mut visitor = AddRemoveDedupVisitor::new(
        &mut seen,
        vec![true, false, true],
        &schema,
        None,
        None,
        true,
    );
    assert_eq!(visitor.visit_rows_of(&batch), Ok(()));
    assert_eq!(visitor.selection_vector, vec![true, false, true]);
    assert!(visitor.row_transform_exprs.is_empty());
    assert!(seen.contains(&FileActionKey::new(C001.to_string(), None)));
    assert!(seen.contains(&FileActionKey::new(C000.to_string(), None)));
    assert!(!seen.contains(&FileActionKey::new("third.parquet".to_string(), None)));
}

#[test]
fn a_pruned_add_is_not_recorded_as_seen() {
    let schema = value_and_date_schema();
    let transform = static_transform();
    let filter = Expression::Binary(
        BinaryOperator::LessThan,
        Box::new(Expression::Column(name(&["date"]))),
        Box::new(Expression::Literal(Scalar::Date(17511))),
    );
    let mut scanner = LogReplayScanner::new(Some((filter, value_and_date_schema())));
    let newest = log_batch(&[add(C000, vec![("date", "2017-12-11")])]);
    let (_rows, sel, transforms) =
        scanner.process_scan_batch(&newest, &schema, Some(&transform), true).unwrap();
    assert_eq!(sel, vec![false]);
    assert!(transforms.is_empty());
    assert!(!scanner.seen.contains(&FileActionKey::new(C000.to_string(), None)));
    // An older copy of the file with another partition value survives.
    let older = log_batch(&[add(C000, vec![("date", "2017-12-10")])]);
    let (_rows, sel, transforms) =
        scanner.process_scan_batch(&older, &schema, Some(&transform), true).unwrap();
    assert_eq!(sel, vec![true]);
    assert_eq!(transforms.len(), 1);
    validate_transform(transforms[0].as_ref(), 17510);
}

#[test]
fn a_remove_is_recorded_even_where_adds_are_pruned() {
    let schema = value_and_date_schema();
    let transform = static_transform();
    let filter = Expression::Binary(
        BinaryOperator::Equal,
        Box::new(Expression::Column(name(&["date"]))),
        Box::new(Expression::Literal(Scalar::Date(17510))),
    );
    let mut scanner = LogReplayScanner::new(Some((filter, value_and_date_schema())));
    let batch = log_batch(&[remove(C000), add(C000, vec![("date", "2017-12-10")])]);
    let (_rows, sel, _transforms) =
        scanner.process_scan_batch(&batch, &schema, Some(&transform), true).unwrap();
    assert_eq!(sel, vec![false, false]);
}

#[test]
fn the_unique_id_of_a_deletion_vector() {
    assert_eq!(unique_id_from_parts("u", "vBn[lx{q8@P<9BNH/isA", Some(1)), "uvBn[lx{q8@P<9BNH/isA@1");
    assert_eq!(unique_id_from_parts("u", "ab", None), "uab");
    assert_eq!(unique_id_from_parts("p", "x", Some(0)), "px@0");
    assert_eq!(unique_id_from_parts("p", "x", Some(1234567890)), "px@1234567890");
    assert_eq!(unique_id_from_parts("p", "x", Some(-42)), "px@-42");
    assert_eq!(unique_id_from_parts("p", "x", Some(i32::MIN)), "px@-2147483648");
    assert_eq!(unique_id_from_parts("p", "x", Some(i32::MAX)), "px@2147483647");
}

#[test]
fn keys_with_and_without_a_deletion_vector_differ() {
    let mut seen = FileActionKeySet::new();
    assert!(seen.insert(FileActionKey::new("a".to_string(), None)));
    assert!(!seen.insert(FileActionKey::new("a".to_string(), None)));
    assert!(seen.insert(FileActionKey::new("a".to_string(), Some("u1".to_string()))));
    assert!(seen.contains(&FileActionKey::new("a".to_string(), Some("u1".to_string()))));
    assert!(!seen.contains(&FileActionKey::new("a".to_string(), Some("u2".to_string()))));
    assert!(!seen.contains(&FileActionKey::new("b".to_string(), None)));
}

#[test]
fn the_scan_row_schema_is_stable() {
    let schema = scan_row_schema();
    let names: Vec<&str> = schema.fields.iter().map(|f| f.name.as_str()).collect();
    assert_eq!(
        names,
        vec!["path", "size", "modificationTime", "stats", "deletionVector", "fileConstantValues"]
    );
    assert!(schema.fields.iter().all(|f| f.nullable));
    assert_eq!(schema.fields[1].data_type, DataType::Primitive(PrimitiveType::Long));
    let DataType::Struct(dv) = &schema.fields[4].data_type else {
        panic!("deletionVector is a struct");
    };
    let dv_names: Vec<&str> = dv.fields.iter().map(|f| f.name.as_str()).collect();
    assert_eq!(
        dv_names,
        vec!["storageType", "pathOrInlineDv", "offset", "sizeInBytes", "cardinality"]
    );
    assert_eq!(dv.fields[2].data_type, DataType::Primitive(PrimitiveType::Integer));
    assert_eq!(dv.fields[4].data_type, DataType::Primitive(PrimitiveType::Long));
    let DataType::Struct(constants) = &schema.fields[5].data_type else {
        panic!("fileConstantValues is a struct");
    };
    assert_eq!(constants.fields.len(), 1);
    assert_eq!(constants.fields[0].name, "partitionValues");
}

#[test]
fn the_add_transform_expression() {
    let column = |a: &str, b: &str| Expression::Column(name(&[a, b]));
    assert_eq!(
        get_add_transform_expr(),
        Expression::Struct(vec![
            column("add", "path"),
            column("add", "size"),
            column("add", "modificationTime"),
            column("add", "stats"),
            column("add", "deletionVector"),
            Expression::Struct(vec![column("add", "partitionValues")]),
        ])
    );
}

#[test]
fn scan_rows_reshape_every_row() {
    let rows = scan_rows(&add_batch_with_remove()).unwrap();
    assert_eq!(rows.len(), 4);
    assert_eq!(str_at(&rows, &["path"], 0), None);
    assert_eq!(str_at(&rows, &["path"], 1), Some(C001.to_string()));
    assert_eq!(str_at(&rows, &["path"], 2), Some(C000.to_string()));
    assert_eq!(long_at(&rows, &["modificationTime"], 2), Some(1677811178336));
    assert_eq!(str_at(&rows, &["deletionVector", "storageType"], 2), Some("u".to_string()));
    assert_eq!(long_at(&rows, &["deletionVector", "cardinality"], 2), Some(2));
    assert_eq!(long_at(&rows, &["deletionVector", "cardinality"], 1), None);
    assert!(rows.column(&name(&["remove", "path"])).is_none());
}

#[test]
fn scan_rows_of_a_batch_without_sizes_fail() {
    let mut columns = columns_of(&[add(C000, vec![])], true);
    columns.remove(2);
    let batch = batch_of(1, columns);
    let result: DeltaResult<ActionBatch> = scan_rows(&batch);
    assert_eq!(result.err(), Some(Error::MissingColumn(1)));
}

#[test]
fn a_column_of_another_length_does_not_fit_a_batch() {
    let batch = ActionBatch::new(2);
    assert!(batch.with_column(name(&["add", "path"]), Column::Str(vec![None])).is_none());
}
