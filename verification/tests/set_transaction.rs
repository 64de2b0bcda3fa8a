use delta_log_replay::actions::set_transaction::{
    txn_meta_predicate, SetTransactionScanner, Snapshot,
};
use delta_log_replay::actions::{SetTransaction, SetTransactionMap, SetTransactionVisitor};
use delta_log_replay::engine_data::{ActionBatch, Column};
use delta_log_replay::error::{DeltaResult, Error, Violation};
use delta_log_replay::expressions::{Expression, UnaryOperator};
use delta_log_replay::schema::{ColumnName, DataType, PrimitiveType};

fn name(path: &[&str]) -> ColumnName {
    ColumnName::new(path.iter().map(|s| s.to_string()).collect())
}

type Txn = (&'static str, i64, Option<i64>);

/// A batch whose rows hold the given transaction markers; `None` is a row
/// with another action.
fn txn_batch(rows: &[Option<Txn>]) -> ActionBatch {
    ActionBatch::new(rows.len())
        .with_column(
            name(&["txn", "appId"]),
            Column::Str(rows.iter().map(|r| r.map(|t| t.0.to_string())).collect()),
        )
        .unwrap()
        .with_column(
            name(&["txn", "version"]),
            Column::Long(rows.iter().map(|r| r.map(|t| t.1)).collect()),
        )
        .unwrap()
        .with_column(
            name(&["txn", "lastUpdated"]),
            Column::Long(rows.iter().map(|r| r.and_then(|t| t.2)).collect()),
        )
        .unwrap()
}

fn scanner(log: Vec<DeltaResult<(ActionBatch, bool)>>) -> SetTransactionScanner {
    SetTransactionScanner::new(Snapshot::new(log))
}

fn get_latest_transactions(
    log: Vec<DeltaResult<(ActionBatch, bool)>>,
    app_id: &str,
) -> (SetTransactionMap, Option<SetTransaction>) {
    let txn_scan = scanner(log);
    (
        txn_scan.application_transactions().unwrap(),
        txn_scan.application_transaction(app_id).unwrap(),
    )
}

/// A partitioned table without transaction markers.
fn basic_partitioned() -> Vec<DeltaResult<(ActionBatch, bool)>> {
    vec![Ok((txn_batch(&[None, None]), true)), Ok((txn_batch(&[None, None, None]), true))]
}

/// Two applications in commits only, newest commit first.
fn app_txn_no_checkpoint() -> Vec<DeltaResult<(ActionBatch, bool)>> {
    vec![
        Ok((txn_batch(&[None, Some(("my-app", 3, Some(1670892998177))), Some(("my-app2", 2, None))]), true)),
        Ok((txn_batch(&[Some(("my-app", 1, Some(1670892997849))), None]), true)),
        Ok((txn_batch(&[None, None]), true)),
    ]
}

/// The same two applications, with the older commits replaced by a
/// checkpoint.
fn app_txn_checkpoint() -> Vec<DeltaResult<(ActionBatch, bool)>> {
    vec![
        Ok((txn_batch(&[None, Some(("my-app", 3, Some(1670892998177)))]), true)),
        Ok((txn_batch(&[None, Some(("my-app", 1, Some(1670892997849))), Some(("my-app2", 2, None))]), false)),
    ]
}

#[test]
fn test_txn() {
    let (txns, txn) = get_latest_transactions(basic_partitioned(), "test");
    assert!(txn.is_none());
    assert_eq!(txns.len(), 0);

    let (txns, txn) = get_latest_transactions(app_txn_no_checkpoint(), "my-app");
    assert!(txn.is_some());
    assert_eq!(txns.len(), 2);
    assert_eq!(txns.get("my-app"), txn.as_ref());
    assert_eq!(
        txns.get("my-app2"),
        Some(SetTransaction { app_id: "my-app2".to_owned(), version: 2, last_updated: None })
            .as_ref()
    );

    let (txns, txn) = get_latest_transactions(app_txn_checkpoint(), "my-app");
    assert!(txn.is_some());
    assert_eq!(txns.len(), 2);
    assert_eq!(txns.get("my-app"), txn.as_ref());
    assert_eq!(
        txns.get("my-app2"),
        Some(SetTransaction { app_id: "my-app2".to_owned(), version: 2, last_updated: None })
            .as_ref()
    );
}

#[test]
fn test_replay_for_app_ids() {
    // The checkpoint has five parts, each containing one action. There are two app ids.
    let txn = scanner(vec![
        Ok((txn_batch(&[None]), false)),
        Ok((txn_batch(&[Some(("3ae45b72-24e1-865a-a211-3b4cc9e6d7ab", 4390, None))]), false)),
        Ok((txn_batch(&[None]), false)),
        Ok((txn_batch(&[None]), false)),
        Ok((txn_batch(&[Some(("b42b951f-f5d1-4f6e-be2a-0d11d1543029", 1812, None))]), false)),
    ]);
    let data: Vec<_> = txn
        .replay_for_app_ids()
        .unwrap()
        .into_iter()
        .collect::<Result<Vec<_>, _>>()
        .unwrap();
    assert_eq!(data.len(), 2);
}

#[test]
fn the_latest_marker_of_an_application_is_the_first_one_met() {
    let (txns, txn) = get_latest_transactions(app_txn_no_checkpoint(), "my-app");
    let expected =
        SetTransaction { app_id: "my-app".to_owned(), version: 3, last_updated: Some(1670892998177) };
    assert_eq!(txn, Some(expected.clone()));
    assert_eq!(txns.get("my-app"), Some(&expected));
    assert!(txns.contains_key(&"my-app2".to_string()));
    assert!(!txns.contains_key(&"my-app3".to_string()));
    assert!(!txns.is_empty());
}

#[test]
fn an_application_without_a_marker_has_none() {
    let txn_scan = scanner(app_txn_checkpoint());
    assert_eq!(txn_scan.application_transaction("unknown"), Ok(None));
    assert_eq!(
        txn_scan.application_transaction("my-app2"),
        Ok(Some(SetTransaction { app_id: "my-app2".to_owned(), version: 2, last_updated: None }))
    );
}

#[test]
fn each_application_agrees_with_the_markers_of_all() {
    for log in [basic_partitioned, app_txn_no_checkpoint, app_txn_checkpoint] {
        let txn_scan = scanner(log());
        let all = txn_scan.application_transactions().unwrap();
        for id in ["my-app", "my-app2", "test", ""] {
            let one = txn_scan.application_transaction(id).unwrap();
            assert_eq!(one.as_ref(), all.get(id));
        }
    }
}

#[test]
fn the_scan_for_one_application_ends_with_the_batch_that_holds_its_marker() {
    // The reader fails after the first batch. Whoever asks for `my-app`
    // never gets there; whoever asks for all markers does.
    let log = || {
        vec![
            Ok((txn_batch(&[Some(("my-app", 3, None))]), true)),
            Err(Error::Engine(11)),
            Ok((txn_batch(&[Some(("my-app2", 2, None))]), true)),
        ]
    };
    let txn_scan = scanner(log());
    assert_eq!(
        txn_scan.application_transaction("my-app"),
        Ok(Some(SetTransaction { app_id: "my-app".to_owned(), version: 3, last_updated: None }))
    );
    assert_eq!(txn_scan.application_transaction("my-app2"), Err(Error::Engine(11)));
    assert_eq!(txn_scan.application_transactions().err(), Some(Error::Engine(11)));
    assert_eq!(
        txn_scan.scan_application_transactions(Some("my-app")).map(|m| m.len()),
        Ok(1)
    );
}

#[test]
fn commits_are_replayed_whole_and_failures_are_delivered() {
    let txn_scan = scanner(vec![
        Ok((txn_batch(&[None]), true)),
        Err(Error::Engine(3)),
        Ok((txn_batch(&[None, None]), false)),
        Ok((txn_batch(&[]), false)),
        Ok((ActionBatch::new(2), false)),
    ]);
    let replay = txn_scan.replay_for_app_ids().unwrap();
    // The commit, the failure, and the checkpoint part that does not show
    // what it holds. The parts whose ids are all null are left out.
    assert_eq!(replay.len(), 3);
    assert_eq!(replay[0].as_ref().map(|b| (b.0.len(), b.1)), Ok((1, true)));
    assert_eq!(replay[1].as_ref().err(), Some(&Error::Engine(3)));
    assert_eq!(replay[2].as_ref().map(|b| (b.0.len(), b.1)), Ok((2, false)));
}

#[test]
fn a_marker_without_a_version_is_missing_data() {
    let batch = ActionBatch::new(1)
        .with_column(name(&["txn", "appId"]), Column::Str(vec![Some("my-app".to_string())]))
        .unwrap()
        .with_column(name(&["txn", "version"]), Column::Long(vec![None]))
        .unwrap()
        .with_column(name(&["txn", "lastUpdated"]), Column::Long(vec![None]))
        .unwrap();
    let txn_scan = scanner(vec![Ok((batch, true))]);
    assert_eq!(txn_scan.application_transactions().err(), Some(Error::MissingData));
    assert_eq!(txn_scan.application_transaction("my-app"), Err(Error::MissingData));
    // Markers of other applications are not read.
    assert_eq!(txn_scan.application_transaction("other"), Ok(None));
}

#[test]
fn a_batch_without_the_columns_of_markers_fails() {
    let batch = ActionBatch::new(1)
        .with_column(name(&["txn", "appId"]), Column::Str(vec![Some("my-app".to_string())]))
        .unwrap();
    let txn_scan = scanner(vec![Ok((batch, true))]);
    assert_eq!(txn_scan.application_transactions().err(), Some(Error::MissingColumn(1)));
}

#[test]
fn versions_of_another_type_are_unexpected() {
    let batch = ActionBatch::new(1)
        .with_column(name(&["txn", "appId"]), Column::Str(vec![Some("my-app".to_string())]))
        .unwrap()
        .with_column(name(&["txn", "version"]), Column::Int(vec![Some(1)]))
        .unwrap()
        .with_column(name(&["txn", "lastUpdated"]), Column::Long(vec![None]))
        .unwrap();
    let txn_scan = scanner(vec![Ok((batch, true))]);
    assert_eq!(txn_scan.application_transactions().err(), Some(Error::UnexpectedColumnType));
}

#[test]
fn the_visitor_of_markers_reads_three_columns() {
    let mut visitor = SetTransactionVisitor::new(None);
    let (names, types) = visitor.selected_column_names_and_types();
    assert_eq!(
        names,
        vec![name(&["txn", "appId"]), name(&["txn", "version"]), name(&["txn", "lastUpdated"])]
    );
    assert_eq!(
        types,
        vec![
            DataType::Primitive(PrimitiveType::String),
            DataType::Primitive(PrimitiveType::Long),
            DataType::Primitive(PrimitiveType::Long),
        ]
    );
    let ids = Column::Str(vec![Some("a".to_string())]);
    let getters: Vec<&Column> = vec![&ids, &ids];
    assert_eq!(
        visitor.visit(1, &getters),
        Err(Error::InternalError(Violation::WrongGetterCount(2)))
    );
    assert!(visitor.set_transactions.is_empty());
}

#[test]
fn the_visitor_keeps_the_first_marker_of_each_application() {
    let mut visitor = SetTransactionVisitor::new(None);
    let newest = txn_batch(&[Some(("a", 2, None)), Some(("b", 5, Some(7))), Some(("a", 1, None))]);
    assert_eq!(visitor.visit_rows_of(&newest), Ok(()));
    let older = txn_batch(&[Some(("b", 4, None)), Some(("c", 1, None))]);
    assert_eq!(visitor.visit_rows_of(&older), Ok(()));
    let found = &visitor.set_transactions;
    assert_eq!(found.len(), 3);
    assert_eq!(found.get("a").map(|t| t.version), Some(2));
    assert_eq!(found.get("b").map(|t| (t.version, t.last_updated)), Some((5, Some(7))));
    assert_eq!(found.get("c").map(|t| t.version), Some(1));
}

#[test]
fn a_map_of_markers_holds_one_marker_for_an_application() {
    let mut map = SetTransactionMap::new();
    assert!(map.is_empty());
    map.insert(SetTransaction { app_id: "a".to_owned(), version: 1, last_updated: None });
    map.insert(SetTransaction { app_id: "b".to_owned(), version: 2, last_updated: None });
    map.insert(SetTransaction { app_id: "a".to_owned(), version: 3, last_updated: Some(4) });
    assert_eq!(map.len(), 2);
    assert_eq!(map.get("a").map(|t| t.version), Some(3));
    assert_eq!(
        map.remove("a"),
        Some(SetTransaction { app_id: "a".to_owned(), version: 3, last_updated: Some(4) })
    );
    assert_eq!(map.remove("a"), None);
    assert_eq!(map.len(), 1);
    assert_eq!(map.get("b").map(|t| t.version), Some(2));
    assert_eq!(map.get("a"), None);
}

#[test]
fn the_schema_of_markers() {
    let schema = SetTransactionScanner::get_txn_schema().unwrap();
    assert_eq!(schema.len(), 1);
    let txn = schema.get_index(0).unwrap();
    assert_eq!(txn.name, "txn");
    let DataType::Struct(fields) = &txn.data_type else {
        panic!("txn is a struct");
    };
    let shape: Vec<(&str, &DataType, bool)> =
        fields.fields.iter().map(|f| (f.name.as_str(), &f.data_type, f.nullable)).collect();
    let string = DataType::Primitive(PrimitiveType::String);
    let long = DataType::Primitive(PrimitiveType::Long);
    assert_eq!(
        shape,
        vec![("appId", &string, false), ("version", &long, false), ("lastUpdated", &long, true)]
    );
}

#[test]
fn the_hint_to_the_reader() {
    assert_eq!(
        txn_meta_predicate(),
        Expression::Unary(
            UnaryOperator::Not,
            Box::new(Expression::Unary(
                UnaryOperator::IsNull,
                Box::new(Expression::Column(name(&["txn", "appId"]))),
            )),
        )
    );
}
