//! Finding the latest transaction markers in the log of a table.
//!
//! The log is read newest first, so the first marker met for an application
//! is its latest. Where the marker of a single application is asked for, the
//! scan ends with the first batch in which one was found; where all are
//! asked for, the whole log is read.

use crate::actions::{
    txn_batch_outcome, txn_column_names, txn_row_spec, txn_visit_spec, SetTransaction,
    SetTransactionMap, SetTransactionView, SetTransactionVisitor, Transactions,
};
use crate::engine_data::{item_view, item_views, ActionBatch, BatchView, Column, ColumnView};
use crate::error::{result_view, DeltaResult, Error};
use crate::expressions::{expr_view, ExprView, Expression, ScalarView, UnaryOperator};
use crate::predicates::{eval, Bindings};
use crate::scan::data_skipping::{skipping_predicate, stat_name};
use crate::schema::{
    ColumnName, DataType, DataTypeView, PrimitiveType, StructField, StructFieldView, StructType,
};
use vstd::prelude::*;

verus! {

/// An item of a log stream: a batch with the flag that tells whether it
/// comes from a commit, or the failure of the reader.
pub type Item = Result<(BatchView, bool), Error>;

/// The log of a table as of one version, as the reader delivers it: the
/// batches of the commits from the newest down, then those of the
/// checkpoint. Where the reader failed, the item is its failure.
pub struct Snapshot {
    pub log_segment: Vec<DeltaResult<(ActionBatch, bool)>>,
}

impl View for Snapshot {
    type V = Seq<Item>;

    open spec fn view(&self) -> Seq<Item> {
        item_views(self.log_segment@)
    }
}

impl Snapshot {
    pub fn new(log_segment: Vec<DeltaResult<(ActionBatch, bool)>>) -> (r: Snapshot)
        ensures
            r.log_segment == log_segment,
    {
        Snapshot { log_segment }
    }
}

/// The mathematical value of an item that borrows its batch.
pub open spec fn borrowed_item_view(item: DeltaResult<(&ActionBatch, bool)>) -> Item {
    match item {
        Ok(b) => Ok((b.0@, b.1)),
        Err(e) => Err(e),
    }
}

pub open spec fn borrowed_item_views(items: Seq<DeltaResult<(&ActionBatch, bool)>>) -> Seq<Item> {
    items.map_values(|i: DeltaResult<(&ActionBatch, bool)>| borrowed_item_view(i))
}

/// The predicate that is handed to the reader of the log as a hint: `txn.appId
/// IS NOT NULL`. It does not name an application, even where one is asked
/// for: the markers of all applications lie in one part of a checkpoint,
/// whose range of ids is too wide to tell anything.
pub open spec fn txn_meta_predicate_spec() -> ExprView {
    ExprView::Unary(
        UnaryOperator::Not,
        Box::new(
            ExprView::Unary(
                UnaryOperator::IsNull,
                Box::new(ExprView::Column(seq!["txn"@, "appId"@])),
            ),
        ),
    )
}

/// The predicate that is handed to the reader of the log as a hint.
pub fn txn_meta_predicate() -> (r: Expression)
    ensures
        r@ == txn_meta_predicate_spec(),
{
    proof {
        reveal_with_fuel(expr_view, 3);
    }
    Expression::Unary(
        UnaryOperator::Not,
        Box::new(
            Expression::Unary(
                UnaryOperator::IsNull,
                Box::new(Expression::Column(ColumnName::of2("txn", "appId"))),
            ),
        ),
    )
}

/// Whether a batch shows that it holds no transaction marker: it has the
/// column `txn.appId`, and the column is null in every row.
pub open spec fn has_no_app_id(batch: BatchView) -> bool {
    let name = seq!["txn"@, "appId"@];
    batch.has_column(name) && forall|i: int|
        0 <= i < batch.num_rows ==> batch.column(name).is_null_at(i)
}

/// Whether the reader delivers an item when it is given the hint. A part of
/// a checkpoint that shows that it holds no transaction marker is left out.
/// Commits are read whole, and failures are delivered.
pub open spec fn is_replayed(item: Item) -> bool {
    match item {
        Err(_) => true,
        Ok((batch, is_log_batch)) => is_log_batch || !has_no_app_id(batch),
    }
}

/// The items of a log that are delivered, in order.
pub open spec fn replayed(items: Seq<Item>) -> Seq<Item>
    decreases items.len(),
{
    if items.len() == 0 {
        Seq::empty()
    } else if is_replayed(items.last()) {
        replayed(items.drop_last()).push(items.last())
    } else {
        replayed(items.drop_last())
    }
}

/// The markers found by scanning the items of a log from the markers `txns`
/// on. A failure of the reader or of a batch fails the scan. Where a single
/// application is asked for, the scan ends with the first batch after which
/// a marker is known.
pub open spec fn txn_scan_spec(filter: Option<Seq<char>>, txns: Transactions, items: Seq<Item>)
    -> Result<Transactions, Error>
    decreases items.len(),
{
    if items.len() == 0 {
        Ok(txns)
    } else {
        match items[0] {
            Err(e) => Err(e),
            Ok((batch, _)) => {
                let out = txn_batch_outcome(filter, txns, batch);
                match out.error {
                    Some(e) => Err(e),
                    None => if filter is Some && !out.txns.dom().is_empty() {
                        Ok(out.txns)
                    } else {
                        txn_scan_spec(filter, out.txns, items.drop_first())
                    },
                }
            },
        }
    }
}

/// The latest marker of every application in a log.
pub open spec fn application_transactions_spec(log: Seq<Item>) -> Result<Transactions, Error> {
    txn_scan_spec(None, Map::empty(), replayed(log))
}

/// The latest marker of one application in a log, if it has one.
pub open spec fn application_transaction_spec(log: Seq<Item>, app_id: Seq<char>) -> Result<
    Option<SetTransactionView>,
    Error,
> {
    match txn_scan_spec(Some(app_id), Map::empty(), replayed(log)) {
        Err(e) => Err(e),
        Ok(txns) => Ok(
            if txns.contains_key(app_id) {
                Some(txns[app_id])
            } else {
                None
            },
        ),
    }
}

/// The schema of the rows that hold transaction markers: the struct `txn`
/// with the id of the application, the version, and the time of the last
/// update, which may be missing.
pub open spec fn txn_schema_spec() -> Seq<StructFieldView> {
    seq![
        StructFieldView {
            name: "txn"@,
            data_type: DataTypeView::Struct(
                seq![
                    StructFieldView {
                        name: "appId"@,
                        data_type: DataTypeView::Primitive(PrimitiveType::String),
                        nullable: false,
                        physical_name: None,
                    },
                    StructFieldView {
                        name: "version"@,
                        data_type: DataTypeView::Primitive(PrimitiveType::Long),
                        nullable: false,
                        physical_name: None,
                    },
                    StructFieldView {
                        name: "lastUpdated"@,
                        data_type: DataTypeView::Primitive(PrimitiveType::Long),
                        nullable: true,
                        physical_name: None,
                    },
                ],
            ),
            nullable: true,
            physical_name: None,
        },
    ]
}

fn is_null(column: &Column, i: usize) -> (r: bool)
    requires
        i < column@.len(),
    ensures
        r == column@.is_null_at(i as int),
{
    match column {
        Column::Str(v) => {
            assert(v.deep_view()[i as int] == v[i as int].deep_view());
            v[i].is_none()
        },
        Column::Int(v) => {
            assert(v.deep_view()[i as int] == v[i as int].deep_view());
            v[i].is_none()
        },
        Column::Long(v) => {
            assert(v.deep_view()[i as int] == v[i as int].deep_view());
            v[i].is_none()
        },
        Column::StrMap(v) => {
            assert(v.deep_view()[i as int] == v[i as int].deep_view());
            v[i].is_none()
        },
    }
}

fn shows_no_app_id(batch: &ActionBatch) -> (r: bool)
    ensures
        r == has_no_app_id(batch@),
{
    let name = ColumnName::of2("txn", "appId");
    let n: usize = batch.len();
    match batch.column(&name) {
        None => false,
        Some(column) => {
            let mut i: usize = 0;
            while i < n
                invariant
                    i <= n,
                    n == batch@.num_rows,
                    column@.len() == n,
                    name@ == seq!["txn"@, "appId"@],
                    batch@.has_column(name@),
                    column@ == batch@.column(name@),
                    forall|j: int| 0 <= j < i ==> column@.is_null_at(j),
                decreases n - i,
            {
                if !is_null(column, i) {
                    return false;
                }
                i += 1;
            }
            true
        },
    }
}

/// Finds the latest transaction markers of applications in the log of a
/// snapshot.
pub struct SetTransactionScanner {
    pub snapshot: Snapshot,
}

impl SetTransactionScanner {
    pub fn new(snapshot: Snapshot) -> (r: SetTransactionScanner)
        ensures
            r.snapshot == snapshot,
    {
        SetTransactionScanner { snapshot }
    }

    /// Scans the log for the markers of all applications, or of one only. If
    /// one application is asked for, the scan ends as soon as its marker has
    /// been found; if all are, the whole log is replayed.
    pub fn scan_application_transactions(&self, application_id: Option<&str>) -> (r: DeltaResult<
        SetTransactionMap,
    >)
        ensures
            match txn_scan_spec(
                match application_id {
                    Some(id) => Some(id@),
                    None => None,
                },
                Map::empty(),
                replayed(self.snapshot@),
            ) {
                Ok(txns) => r matches Ok(found) && found@ == txns,
                Err(e) => r matches Err(x) && x == e,
            },
    {
        let requested: Option<String> = match application_id {
            Some(id) => Some(id.to_owned()),
            None => None,
        };
        let early: bool = application_id.is_some();
        let mut visitor = SetTransactionVisitor::new(requested);
        let ghost filter = visitor.filter();
        let replay = self.replay_for_app_ids()?;
        let ghost items = borrowed_item_views(replay@);
        let mut k: usize = 0;
        assert(items.skip(0) =~= items);
        while k < replay.len()
            invariant
                k <= replay.len(),
                items == borrowed_item_views(replay@),
                items == replayed(self.snapshot@),
                filter == visitor.filter(),
                filter == match application_id {
                    Some(id) => Some(id@),
                    None => None,
                },
                early == (filter is Some),
                txn_scan_spec(filter, Map::empty(), items) == txn_scan_spec(
                    filter,
                    visitor.set_transactions@,
                    items.skip(k as int),
                ),
            decreases replay.len() - k,
        {
            proof {
                assert(items.skip(k as int)[0] == borrowed_item_view(replay@[k as int]));
                assert(items.skip(k as int).drop_first() =~= items.skip(k + 1));
            }
            match &replay[k] {
                Err(e) => {
                    return Err(*e);
                },
                Ok(item) => {
                    visitor.visit_rows_of(item.0)?;
                    // Once the marker of the one application asked for has
                    // been found, the rest of the log is of no interest.
                    if early && !visitor.set_transactions.is_empty() {
                        return Ok(visitor.set_transactions);
                    }
                },
            }
            k += 1;
        }
        Ok(visitor.set_transactions)
    }

    /// The schema of the rows that hold transaction markers.
    pub fn get_txn_schema() -> (r: DeltaResult<StructType>)
        ensures
            result_view(r) == Ok::<Seq<StructFieldView>, Error>(txn_schema_spec()),
    {
        let mut inner: Vec<StructField> = Vec::new();
        inner.push(
            StructField::new("appId".to_owned(), DataType::Primitive(PrimitiveType::String), false),
        );
        inner.push(
            StructField::new("version".to_owned(), DataType::Primitive(PrimitiveType::Long), false),
        );
        inner.push(
            StructField::new(
                "lastUpdated".to_owned(),
                DataType::Primitive(PrimitiveType::Long),
                true,
            ),
        );
        let ghost fields = inner@.map_values(|f: StructField| f@);
        assert(fields =~= txn_schema_spec()[0].data_type->Struct_0);
        let txn = StructType::new(inner);
        let boxed = DataType::Struct(Box::new(txn));
        assert(boxed@ == DataTypeView::Struct(txn@));
        let mut outer: Vec<StructField> = Vec::new();
        outer.push(StructField::new("txn".to_owned(), boxed, true));
        let schema = StructType::new(outer);
        assert(schema@ =~= txn_schema_spec());
        Ok(schema)
    }

    /// The items of the log that a scan for transaction markers reads: what
    /// the reader delivers when it is given the hint that only rows with the
    /// id of an application are of interest.
    pub fn replay_for_app_ids(&self) -> (r: DeltaResult<Vec<DeltaResult<(&ActionBatch, bool)>>>)
        ensures
            r matches Ok(items) && borrowed_item_views(items@) == replayed(self.snapshot@),
    {
        let ghost log = self.snapshot@;
        let mut items: Vec<DeltaResult<(&ActionBatch, bool)>> = Vec::new();
        let mut k: usize = 0;
        assert(log.take(0) =~= Seq::<Item>::empty());
        while k < self.snapshot.log_segment.len()
            invariant
                k <= self.snapshot.log_segment.len(),
                log == self.snapshot@,
                borrowed_item_views(items@) == replayed(log.take(k as int)),
            decreases self.snapshot.log_segment.len() - k,
        {
            proof {
                assert(log.take(k + 1).drop_last() =~= log.take(k as int));
                assert(log.take(k + 1).last() == item_view(self.snapshot.log_segment@[k as int]));
            }
            let ghost before = borrowed_item_views(items@);
            let ghost step = replayed(log.take(k + 1));
            match &self.snapshot.log_segment[k] {
                Err(e) => {
                    items.push(Err(*e));
                    assert(borrowed_item_views(items@) =~= before.push(Err(*e)));
                    assert(borrowed_item_views(items@) == step);
                },
                Ok(item) => {
                    if item.1 || !shows_no_app_id(&item.0) {
                        items.push(Ok((&item.0, item.1)));
                        assert(borrowed_item_views(items@) =~= before.push(
                            Ok((item.0@, item.1)),
                        ));
                    }
                    assert(borrowed_item_views(items@) == step);
                },
            }
            k += 1;
        }
        assert(log.take(k as int) =~= log);
        Ok(items)
    }

    /// The latest transaction marker of an application in the log, if it has
    /// one.
    pub fn application_transaction(&self, application_id: &str) -> (r: DeltaResult<
        Option<SetTransaction>,
    >)
        ensures
            match application_transaction_spec(self.snapshot@, application_id@) {
                Ok(Some(txn)) => r matches Ok(Some(found)) && found@ == txn,
                Ok(None) => r matches Ok(None),
                Err(e) => r matches Err(x) && x == e,
            },
    {
        let mut transactions = self.scan_application_transactions(Some(application_id))?;
        Ok(transactions.remove(application_id))
    }

    /// The latest transaction marker of every application in the log.
    pub fn application_transactions(&self) -> (r: DeltaResult<SetTransactionMap>)
        ensures
            match application_transactions_spec(self.snapshot@) {
                Ok(txns) => r matches Ok(found) && found@ == txns,
                Err(e) => r matches Err(x) && x == e,
            },
    {
        self.scan_application_transactions(None)
    }
}

/// How the markers found for one application relate to the markers found
/// for all: the former hold a marker for that application at most, and they
/// hold it exactly if the latter do, and then the same.
pub open spec fn agree_on(one: Transactions, all: Transactions, app_id: Seq<char>) -> bool {
    &&& forall|k: Seq<char>| one.contains_key(k) ==> k == app_id
    &&& one.contains_key(app_id) <==> all.contains_key(app_id)
    &&& all.contains_key(app_id) ==> one[app_id] == all[app_id]
}

/// A marker that has been found stays as it is, whatever rows follow: the
/// first marker met for an application wins.
pub proof fn lemma_visit_keeps_markers(
    filter: Option<Seq<char>>,
    start: Transactions,
    cols: Seq<ColumnView>,
    n: int,
    k: Seq<char>,
)
    requires
        start.contains_key(k),
    ensures
        txn_visit_spec(filter, start, cols, n).txns.contains_key(k),
        txn_visit_spec(filter, start, cols, n).txns[k] == start[k],
    decreases n,
{
    if n > 0 {
        lemma_visit_keeps_markers(filter, start, cols, n - 1, k);
    }
}

/// Visiting a batch for one application finds what visiting it for all
/// applications finds for that one, where the latter does not fail.
proof fn lemma_visit_agrees(
    cols: Seq<ColumnView>,
    n: int,
    app_id: Seq<char>,
    one: Transactions,
    all: Transactions,
)
    requires
        agree_on(one, all, app_id),
        txn_visit_spec(None, all, cols, n).error is None,
    ensures
        txn_visit_spec(Some(app_id), one, cols, n).error is None,
        agree_on(
            txn_visit_spec(Some(app_id), one, cols, n).txns,
            txn_visit_spec(None, all, cols, n).txns,
            app_id,
        ),
    decreases n,
{
    if n > 0 {
        let before_all = txn_visit_spec(None, all, cols, n - 1);
        assert(before_all.error is None);
        lemma_visit_agrees(cols, n - 1, app_id, one, all);
        let before_one = txn_visit_spec(Some(app_id), one, cols, n - 1);
        let after_all = txn_row_spec(None, before_all.txns, cols, n - 1);
        let after_one = txn_row_spec(Some(app_id), before_one.txns, cols, n - 1);
        assert(after_all == txn_visit_spec(None, all, cols, n));
        assert(after_one == txn_visit_spec(Some(app_id), one, cols, n));
        assert(agree_on(after_one.txns, after_all.txns, app_id));
    }
}

/// Scanning on for all applications keeps the markers already found.
proof fn lemma_scan_keeps_markers(txns: Transactions, items: Seq<Item>, k: Seq<char>)
    requires
        txns.contains_key(k),
        txn_scan_spec(None, txns, items) is Ok,
    ensures
        txn_scan_spec(None, txns, items)->Ok_0.contains_key(k),
        txn_scan_spec(None, txns, items)->Ok_0[k] == txns[k],
    decreases items.len(),
{
    if items.len() > 0 {
        let batch = items[0]->Ok_0.0;
        let out = txn_batch_outcome(None, txns, batch);
        if batch.select(txn_column_names()) is Ok {
            let cols = batch.select(txn_column_names())->Ok_0;
            if cols.len() == 3 {
                lemma_visit_keeps_markers(None, txns, cols, batch.num_rows as int, k);
            }
        }
        lemma_scan_keeps_markers(out.txns, items.drop_first(), k);
    }
}

/// Scanning for one application finds what scanning for all applications
/// finds for that one, where the latter does not fail.
proof fn lemma_scan_agrees(items: Seq<Item>, app_id: Seq<char>, one: Transactions, all: Transactions)
    requires
        agree_on(one, all, app_id),
        txn_scan_spec(None, all, items) is Ok,
    ensures
        txn_scan_spec(Some(app_id), one, items) is Ok,
        agree_on(
            txn_scan_spec(Some(app_id), one, items)->Ok_0,
            txn_scan_spec(None, all, items)->Ok_0,
            app_id,
        ),
    decreases items.len(),
{
    if items.len() > 0 {
        let batch = items[0]->Ok_0.0;
        let out_all = txn_batch_outcome(None, all, batch);
        let out_one = txn_batch_outcome(Some(app_id), one, batch);
        assert(out_all.error is None);
        let cols = batch.select(txn_column_names())->Ok_0;
        assert(batch.select(txn_column_names()) is Ok);
        assert(cols.len() == 3);
        lemma_visit_agrees(cols, batch.num_rows as int, app_id, one, all);
        assert(out_one.error is None);
        assert(agree_on(out_one.txns, out_all.txns, app_id));
        if !out_one.txns.dom().is_empty() {
            // The scan for the one application ends here, with its marker.
            assert(out_one.txns.contains_key(app_id)) by {
                if forall|k: Seq<char>| !out_one.txns.dom().contains(k) {
                    assert(out_one.txns.dom() =~= Set::<Seq<char>>::empty());
                }
            }
            lemma_scan_keeps_markers(out_all.txns, items.drop_first(), app_id);
        } else {
            lemma_scan_agrees(items.drop_first(), app_id, out_one.txns, out_all.txns);
        }
    }
}

/// The latest marker of one application is the marker that the latest
/// markers of all applications hold for it: where the latter can be found,
/// the former can, and it is `Some(t)` exactly if they hold `t` for the
/// application.
pub proof fn lemma_application_transaction_agrees(log: Seq<Item>, app_id: Seq<char>)
    requires
        application_transactions_spec(log) is Ok,
    ensures
        application_transaction_spec(log, app_id) is Ok,
        forall|t: SetTransactionView|
            application_transaction_spec(log, app_id) == Ok::<Option<SetTransactionView>, Error>(
                Some(t),
            ) <==> application_transactions_spec(log)->Ok_0.contains_pair(app_id, t),
{
    let empty = Map::<Seq<char>, SetTransactionView>::empty();
    lemma_scan_agrees(replayed(log), app_id, empty, empty);
}

/// The number of nulls among the first `n` rows of a column.
pub open spec fn null_count(c: ColumnView, n: int) -> int
    decreases n,
{
    if n <= 0 {
        0
    } else if c.is_null_at(n - 1) {
        null_count(c, n - 1) + 1
    } else {
        null_count(c, n - 1)
    }
}

/// The statistics that a reader has of a part of a checkpoint: the number
/// of its records, and for each of its columns the number of nulls.
pub open spec fn part_statistics(batch: BatchView) -> Bindings {
    Map::new(
        |name: Seq<Seq<char>>|
            name == seq!["numRecords"@] || (name.len() > 0 && name[0] == "nullCount"@
                && batch.has_column(name.subrange(1, name.len() as int))),
        |name: Seq<Seq<char>>|
            if name == seq!["numRecords"@] {
                ScalarView::Long(batch.num_rows as i64)
            } else {
                ScalarView::Long(
                    null_count(
                        batch.column(name.subrange(1, name.len() as int)),
                        batch.num_rows as int,
                    ) as i64,
                )
            },
    )
}

proof fn lemma_null_count(c: ColumnView, n: int)
    requires
        0 <= n,
    ensures
        0 <= null_count(c, n) <= n,
        null_count(c, n) == n <==> forall|i: int| 0 <= i < n ==> c.is_null_at(i),
    decreases n,
{
    if n > 0 {
        lemma_null_count(c, n - 1);
        if null_count(c, n) == n {
            assert(c.is_null_at(n - 1));
        }
    }
}

/// The parts of a checkpoint that are left out are those that the hint
/// rules out: the skipping predicate of `txn.appId IS NOT NULL` is false of
/// the statistics of a part exactly if the part has the column and the
/// column is null in every row.
pub proof fn lemma_hint_rules_out(batch: BatchView)
    requires
        batch.num_rows <= i64::MAX,
    ensures
        skipping_predicate(txn_meta_predicate_spec(), false) is Some,
        has_no_app_id(batch) <==> eval(
            part_statistics(batch),
            skipping_predicate(txn_meta_predicate_spec(), false)->Some_0,
        ) == Some(false),
{
    reveal_with_fuel(skipping_predicate, 3);
    reveal_strlit("numRecords");
    reveal_strlit("nullCount");
    let name = seq!["txn"@, "appId"@];
    let nulls = stat_name("nullCount"@, name);
    let records = seq!["numRecords"@];
    assert("numRecords"@.len() != "nullCount"@.len());
    assert(nulls[0] == "nullCount"@);
    assert(nulls != records);
    assert(nulls.subrange(1, nulls.len() as int) =~= name);
    assert(records[0] == "numRecords"@);
    let stats = part_statistics(batch);
    assert(stats.contains_key(records));
    assert(stats.contains_key(nulls) == batch.has_column(name));
    if batch.has_column(name) {
        lemma_null_count(batch.column(name), batch.num_rows as int);
    }
}

} // verus!
