//! The transaction markers of applications, and the visitor that collects
//! them from the rows of a batch.
//!
//! An application that writes to a table may record, with each commit, a
//! marker that holds its id and a version of its own. The latest marker of an
//! application is the one met first when the log is read newest first.

use crate::engine_data::{getter_views, required, ActionBatch, BatchView, Column, ColumnView};
use crate::error::{DeltaResult, Error, Violation};
use crate::schema::{ColumnName, DataType, DataTypeView, PrimitiveType};
use vstd::prelude::*;

pub mod set_transaction;

verus! {

/// The transaction marker of an application.
#[derive(Debug, PartialEq, Eq)]
pub struct SetTransaction {
    /// The id of the application.
    pub app_id: String,
    /// The version that the application has recorded.
    pub version: i64,
    /// When the marker was written, in milliseconds since the epoch.
    pub last_updated: Option<i64>,
}

/// The mathematical value of a [`SetTransaction`].
pub struct SetTransactionView {
    pub app_id: Seq<char>,
    pub version: i64,
    pub last_updated: Option<i64>,
}

impl View for SetTransaction {
    type V = SetTransactionView;

    open spec fn view(&self) -> SetTransactionView {
        SetTransactionView {
            app_id: self.app_id@,
            version: self.version,
            last_updated: self.last_updated,
        }
    }
}

impl DeepView for SetTransaction {
    type V = SetTransactionView;

    open spec fn deep_view(&self) -> SetTransactionView {
        self@
    }
}

impl Clone for SetTransaction {
    fn clone(&self) -> (r: SetTransaction)
        ensures
            r@ == self@,
    {
        SetTransaction {
            app_id: self.app_id.clone(),
            version: self.version,
            last_updated: self.last_updated,
        }
    }
}

/// The transaction markers of applications by the id of the application.
pub type Transactions = Map<Seq<char>, SetTransactionView>;

/// The transaction markers found in a log, by the id of the application.
/// There is one marker for an application at most.
#[derive(Debug)]
pub struct SetTransactionMap {
    entries: Vec<SetTransaction>,
}

impl View for SetTransactionMap {
    type V = Transactions;

    closed spec fn view(&self) -> Transactions {
        Map::new(
            |k: Seq<char>| exists|i: int| 0 <= i < self.entries.len() && self.entries[i].app_id@ == k,
            |k: Seq<char>|
                self.entries[choose|i: int|
                    0 <= i < self.entries.len() && self.entries[i].app_id@ == k]@,
        )
    }
}

impl SetTransactionMap {
    #[verifier::type_invariant]
    spec fn distinct(self) -> bool {
        forall|i: int, j: int|
            0 <= i < j < self.entries.len() ==> self.entries[i].app_id@ != self.entries[j].app_id@
    }

    spec fn keys(self) -> Seq<Seq<char>> {
        Seq::new(self.entries.len() as nat, |i: int| self.entries[i].app_id@)
    }

    /// The map without markers.
    pub fn new() -> (r: SetTransactionMap)
        ensures
            r@ == Map::<Seq<char>, SetTransactionView>::empty(),
    {
        let r = SetTransactionMap { entries: Vec::new() };
        assert(r@ =~= Map::<Seq<char>, SetTransactionView>::empty());
        r
    }

    /// The number of applications that have a marker.
    pub fn len(&self) -> (r: usize)
        ensures
            self@.dom().finite(),
            r == self@.dom().len(),
    {
        proof {
            use_type_invariant(self);
            let keys = self.keys();
            assert(keys.no_duplicates());
            assert(keys.to_set() =~= self@.dom()) by {
                assert forall|k: Seq<char>| keys.to_set().contains(k) == self@.dom().contains(
                    k,
                ) by {
                    if keys.contains(k) {
                        let i = choose|i: int| 0 <= i < keys.len() && keys[i] == k;
                        assert(self.entries[i].app_id@ == k);
                    }
                    if self@.dom().contains(k) {
                        let i = choose|i: int|
                            0 <= i < self.entries.len() && self.entries[i].app_id@ == k;
                        assert(keys[i] == k);
                    }
                }
            }
            keys.unique_seq_to_set();
            vstd::seq_lib::seq_to_set_is_finite(keys);
        }
        self.entries.len()
    }

    /// Whether no application has a marker.
    pub fn is_empty(&self) -> (r: bool)
        ensures
            r == self@.dom().is_empty(),
    {
        proof {
            if self.entries.len() > 0 {
                assert(self@.dom().contains(self.entries[0].app_id@));
            }
        }
        self.entries.len() == 0
    }

    fn position(&self, app_id: &String) -> (r: Option<usize>)
        ensures
            r is Some <==> self@.contains_key(app_id@),
            r matches Some(i) ==> i < self.entries.len() && self.entries[i as int].app_id@
                == app_id@ && self@[app_id@] == self.entries[i as int]@,
    {
        proof {
            use_type_invariant(self);
        }
        let mut i: usize = 0;
        while i < self.entries.len()
            invariant
                i <= self.entries.len(),
                self.distinct(),
                forall|j: int| 0 <= j < i ==> self.entries[j].app_id@ != app_id@,
            decreases self.entries.len() - i,
        {
            if self.entries[i].app_id == *app_id {
                proof {
                    let c = choose|c: int|
                        0 <= c < self.entries.len() && self.entries[c].app_id@ == app_id@;
                    assert(c == i);
                }
                return Some(i);
            }
            i += 1;
        }
        None
    }

    /// Whether the application has a marker.
    pub fn contains_key(&self, app_id: &String) -> (r: bool)
        ensures
            r == self@.contains_key(app_id@),
    {
        self.position(app_id).is_some()
    }

    /// The marker of the application, if it has one.
    pub fn get(&self, app_id: &str) -> (r: Option<&SetTransaction>)
        ensures
            r is Some <==> self@.contains_key(app_id@),
            r matches Some(t) ==> t@ == self@[app_id@],
    {
        let key: String = app_id.to_owned();
        match self.position(&key) {
            Some(i) => Some(&self.entries[i]),
            None => None,
        }
    }

    /// Records the marker for its application, in place of the marker that
    /// the application had, if it had one.
    pub fn insert(&mut self, txn: SetTransaction)
        ensures
            final(self)@ == old(self)@.insert(txn.app_id@, txn@),
    {
        proof {
            use_type_invariant(&*self);
        }
        let found: Option<usize> = self.position(&txn.app_id);
        let ghost before = self.entries@;
        let ghost was = self@;
        let mut entries: Vec<SetTransaction> = Vec::new();
        std::mem::swap(&mut self.entries, &mut entries);
        match found {
            Some(i) => {
                entries.set(i, txn);
            },
            None => {
                entries.push(txn);
            },
        }
        let ghost after = entries@;
        proof {
            assert forall|i: int, j: int| 0 <= i < j < after.len() implies after[i].app_id@
                != after[j].app_id@ by {
                if found is Some {
                    let p = found->Some_0 as int;
                    assert(after[p].app_id@ == before[p].app_id@);
                    assert(forall|x: int| 0 <= x < after.len() ==> after[x].app_id@
                        == before[x].app_id@);
                }
            }
        }
        std::mem::swap(&mut self.entries, &mut entries);
        proof {
            let want = was.insert(txn.app_id@, txn@);
            assert forall|k: Seq<char>| self@.contains_key(k) == want.contains_key(k) by {
                if self@.contains_key(k) {
                    let i = choose|i: int| 0 <= i < after.len() && after[i].app_id@ == k;
                    if k != txn.app_id@ {
                        assert(0 <= i < before.len() && before[i].app_id@ == k);
                    }
                }
                if was.contains_key(k) {
                    let i = choose|i: int| 0 <= i < before.len() && before[i].app_id@ == k;
                    if found is Some && i == found->Some_0 {
                        assert(after[i].app_id@ == k);
                    } else {
                        assert(after[i].app_id@ == k);
                    }
                }
                if k == txn.app_id@ {
                    if found is Some {
                        assert(after[found->Some_0 as int].app_id@ == k);
                    } else {
                        assert(after[before.len() as int].app_id@ == k);
                    }
                }
            }
            assert forall|k: Seq<char>| self@.contains_key(k) implies self@[k] == want[k] by {
                let i = choose|i: int| 0 <= i < after.len() && after[i].app_id@ == k;
                if k == txn.app_id@ {
                    if found is Some {
                        assert(after[found->Some_0 as int].app_id@ == k);
                        assert(i == found->Some_0);
                    } else {
                        assert(after[before.len() as int].app_id@ == k);
                        assert(i == before.len());
                    }
                } else {
                    assert(0 <= i < before.len() && before[i].app_id@ == k);
                    let c = choose|c: int| 0 <= c < before.len() && before[c].app_id@ == k;
                    assert(c == i);
                    assert(after[i] == before[i]);
                }
            }
            assert(self@ =~= want);
        }
    }

    /// Takes the marker of the application out of the map, if it has one.
    pub fn remove(&mut self, app_id: &str) -> (r: Option<SetTransaction>)
        ensures
            final(self)@ == old(self)@.remove(app_id@),
            r is Some <==> old(self)@.contains_key(app_id@),
            r matches Some(t) ==> t@ == old(self)@[app_id@],
    {
        proof {
            use_type_invariant(&*self);
        }
        let key: String = app_id.to_owned();
        let found: Option<usize> = self.position(&key);
        let ghost before = self.entries@;
        let ghost was = self@;
        match found {
            None => {
                assert(was.remove(app_id@) =~= was);
                None
            },
            Some(p) => {
                let mut entries: Vec<SetTransaction> = Vec::new();
                std::mem::swap(&mut self.entries, &mut entries);
                let taken = entries.remove(p);
                let ghost after = entries@;
                proof {
                    assert(after == before.remove(p as int));
                    assert forall|i: int, j: int| 0 <= i < j < after.len() implies after[i].app_id@
                        != after[j].app_id@ by {
                        let a = if i < p {
                            i
                        } else {
                            i + 1
                        };
                        let b = if j < p {
                            j
                        } else {
                            j + 1
                        };
                        assert(after[i] == before[a]);
                        assert(after[j] == before[b]);
                    }
                }
                std::mem::swap(&mut self.entries, &mut entries);
                proof {
                    let want = was.remove(app_id@);
                    assert forall|k: Seq<char>| self@.contains_key(k) == want.contains_key(k) by {
                        if self@.contains_key(k) {
                            let i = choose|i: int| 0 <= i < after.len() && after[i].app_id@ == k;
                            let a = if i < p {
                                i
                            } else {
                                i + 1
                            };
                            assert(after[i] == before[a]);
                            assert(0 <= a < before.len() && before[a].app_id@ == k);
                            assert(a != p);
                        }
                        if want.contains_key(k) {
                            let a = choose|a: int| 0 <= a < before.len() && before[a].app_id@ == k;
                            assert(a != p);
                            let i = if a < p {
                                a
                            } else {
                                a - 1
                            };
                            assert(after[i] == before[a]);
                            assert(0 <= i < after.len() && after[i].app_id@ == k);
                        }
                    }
                    assert forall|k: Seq<char>| self@.contains_key(k) implies self@[k]
                        == want[k] by {
                        let i = choose|i: int| 0 <= i < after.len() && after[i].app_id@ == k;
                        let a = if i < p {
                            i
                        } else {
                            i + 1
                        };
                        assert(after[i] == before[a]);
                        let c = choose|c: int| 0 <= c < before.len() && before[c].app_id@ == k;
                        assert(c == a);
                    }
                    assert(self@ =~= want);
                }
                Some(taken)
            },
        }
    }
}

/// The position, among the columns that a visitor of transaction markers
/// selects, of the id of the application.
pub const APP_ID_INDEX: usize = 0;

/// The position of the version.
pub const VERSION_INDEX: usize = 1;

/// The position of the time of the last update.
pub const LAST_UPDATED_INDEX: usize = 2;

/// The names of the columns that a visitor of transaction markers selects.
pub open spec fn txn_column_names() -> Seq<Seq<Seq<char>>> {
    seq![
        seq!["txn"@, "appId"@],
        seq!["txn"@, "version"@],
        seq!["txn"@, "lastUpdated"@],
    ]
}

/// The types of the columns that a visitor of transaction markers selects.
pub open spec fn txn_column_types() -> Seq<DataTypeView> {
    seq![
        DataTypeView::Primitive(PrimitiveType::String),
        DataTypeView::Primitive(PrimitiveType::Long),
        DataTypeView::Primitive(PrimitiveType::Long),
    ]
}

/// The marker of the application `app_id` in row `i`. It must have a
/// version.
pub open spec fn txn_at(cols: Seq<ColumnView>, i: int, app_id: Seq<char>) -> Result<
    SetTransactionView,
    Error,
> {
    match required(cols[VERSION_INDEX as int].long_at(i)) {
        Err(e) => Err(e),
        Ok(version) => match cols[LAST_UPDATED_INDEX as int].long_at(i) {
            Err(e) => Err(e),
            Ok(last_updated) => Ok(SetTransactionView { app_id, version, last_updated }),
        },
    }
}

/// Whether markers of the application `app_id` are looked for: all are,
/// unless a single application is asked for.
pub open spec fn is_wanted(filter: Option<Seq<char>>, app_id: Seq<char>) -> bool {
    match filter {
        Some(f) => f == app_id,
        None => true,
    }
}

/// The state of the visit of a batch: the markers found, and the failure
/// that ended the visit, if one did.
pub struct TxnOutcome {
    pub txns: Transactions,
    pub error: Option<Error>,
}

/// The outcome of visiting row `i`. A row without the id of an application
/// holds no marker. A marker is recorded if markers of its application are
/// looked for and none has been found for it yet: the first one met is the
/// latest.
pub open spec fn txn_row_spec(
    filter: Option<Seq<char>>,
    txns: Transactions,
    cols: Seq<ColumnView>,
    i: int,
) -> TxnOutcome {
    match cols[APP_ID_INDEX as int].str_at(i) {
        Err(e) => TxnOutcome { txns, error: Some(e) },
        Ok(None) => TxnOutcome { txns, error: None },
        Ok(Some(app_id)) => if is_wanted(filter, app_id) {
            match txn_at(cols, i, app_id) {
                Err(e) => TxnOutcome { txns, error: Some(e) },
                Ok(txn) => TxnOutcome {
                    txns: if txns.contains_key(app_id) {
                        txns
                    } else {
                        txns.insert(app_id, txn)
                    },
                    error: None,
                },
            }
        } else {
            TxnOutcome { txns, error: None }
        },
    }
}

/// The state after the first `n` rows of a batch have been visited. The
/// first row that fails ends the visit.
pub open spec fn txn_visit_spec(
    filter: Option<Seq<char>>,
    start: Transactions,
    cols: Seq<ColumnView>,
    n: int,
) -> TxnOutcome
    decreases n,
{
    if n <= 0 {
        TxnOutcome { txns: start, error: None }
    } else {
        let prev = txn_visit_spec(filter, start, cols, n - 1);
        if prev.error is Some {
            prev
        } else {
            txn_row_spec(filter, prev.txns, cols, n - 1)
        }
    }
}

/// The state after a visitor was handed the columns `cols` of a batch of
/// `row_count` rows. A wrong number of columns fails the visit at once.
pub open spec fn txn_visit_outcome(
    filter: Option<Seq<char>>,
    start: Transactions,
    cols: Seq<ColumnView>,
    row_count: int,
) -> TxnOutcome {
    if cols.len() != 3 {
        TxnOutcome {
            txns: start,
            error: Some(Error::InternalError(Violation::WrongGetterCount(cols.len() as usize))),
        }
    } else {
        txn_visit_spec(filter, start, cols, row_count)
    }
}

/// The state after a visitor has visited a batch. A batch that lacks one of
/// the columns the visitor reads fails the visit at once.
pub open spec fn txn_batch_outcome(filter: Option<Seq<char>>, start: Transactions, batch: BatchView)
    -> TxnOutcome {
    match batch.select(txn_column_names()) {
        Err(e) => TxnOutcome { txns: start, error: Some(e) },
        Ok(cols) => txn_visit_outcome(filter, start, cols, batch.num_rows as int),
    }
}

/// Once a row has failed, the rest of the batch changes nothing.
pub proof fn lemma_txn_error_ends_visit(
    filter: Option<Seq<char>>,
    start: Transactions,
    cols: Seq<ColumnView>,
    n: int,
    m: int,
)
    requires
        n <= m,
        txn_visit_spec(filter, start, cols, n).error is Some,
    ensures
        txn_visit_spec(filter, start, cols, m) == txn_visit_spec(filter, start, cols, n),
    decreases m - n,
{
    if n < m {
        lemma_txn_error_ends_visit(filter, start, cols, n, m - 1);
    }
}

/// A visitor that collects the latest transaction marker of every
/// application, or of one application only.
pub struct SetTransactionVisitor {
    /// The markers found so far.
    pub set_transactions: SetTransactionMap,
    /// The application whose marker is looked for, if it is one only.
    pub application_id: Option<String>,
}

impl SetTransactionVisitor {
    /// The application whose marker is looked for, if it is one only.
    pub open spec fn filter(&self) -> Option<Seq<char>> {
        match self.application_id {
            Some(id) => Some(id@),
            None => None,
        }
    }

    /// A visitor that has found nothing yet.
    pub fn new(application_id: Option<String>) -> (r: SetTransactionVisitor)
        ensures
            r.set_transactions@ == Map::<Seq<char>, SetTransactionView>::empty(),
            r.application_id == application_id,
    {
        SetTransactionVisitor { set_transactions: SetTransactionMap::new(), application_id }
    }

    /// The names and types of the columns that this visitor reads, in the
    /// order in which it reads them.
    pub fn selected_column_names_and_types(&self) -> (r: (Vec<ColumnName>, Vec<DataType>))
        ensures
            r.0.deep_view() == txn_column_names(),
            r.1@.map_values(|t: DataType| t@) == txn_column_types(),
    {
        let mut names: Vec<ColumnName> = Vec::new();
        let mut types: Vec<DataType> = Vec::new();
        names.push(ColumnName::of2("txn", "appId"));
        types.push(DataType::Primitive(PrimitiveType::String));
        names.push(ColumnName::of2("txn", "version"));
        types.push(DataType::Primitive(PrimitiveType::Long));
        names.push(ColumnName::of2("txn", "lastUpdated"));
        types.push(DataType::Primitive(PrimitiveType::Long));
        assert(names.deep_view() =~= txn_column_names());
        assert(types@.map_values(|t: DataType| t@) =~= txn_column_types());
        (names, types)
    }

    /// The marker of the application `app_id` in row `i`.
    pub fn visit_txn(i: usize, app_id: String, getters: &[&Column]) -> (r: DeltaResult<
        SetTransaction,
    >)
        requires
            getters@.len() == 3,
            forall|k: int| 0 <= k < getters@.len() ==> i < (#[trigger] getters@[k])@.len(),
        ensures
            crate::error::result_view(r) == txn_at(getter_views(getters@), i as int, app_id@),
    {
        let version: i64 = match getters[VERSION_INDEX].get_long(i)? {
            Some(v) => v,
            None => {
                return Err(Error::MissingData);
            },
        };
        let last_updated: Option<i64> = getters[LAST_UPDATED_INDEX].get_long(i)?;
        Ok(SetTransaction { app_id, version, last_updated })
    }

    /// Visits the rows of a batch, of which `getters` are the selected
    /// columns. The batches of a log must be visited newest first.
    pub fn visit(&mut self, row_count: usize, getters: &[&Column]) -> (r: DeltaResult<()>)
        requires
            forall|k: int| 0 <= k < getters@.len() ==> (#[trigger] getters@[k])@.len() == row_count,
        ensures
            final(self).application_id == old(self).application_id,
            ({
                let out = txn_visit_outcome(
                    old(self).filter(),
                    old(self).set_transactions@,
                    getter_views(getters@),
                    row_count as int,
                );
                &&& final(self).set_transactions@ == out.txns
                &&& match out.error {
                    Some(e) => r matches Err(x) && x == e,
                    None => r is Ok,
                }
            }),
    {
        if getters.len() != 3 {
            return Err(Error::InternalError(Violation::WrongGetterCount(getters.len())));
        }
        let ghost filter = self.filter();
        let ghost start = self.set_transactions@;
        let ghost cols = getter_views(getters@);
        let mut i: usize = 0;
        while i < row_count
            invariant
                i <= row_count,
                getters@.len() == 3,
                cols == getter_views(getters@),
                filter == self.filter(),
                filter == old(self).filter(),
                start == old(self).set_transactions@,
                self.application_id == old(self).application_id,
                forall|k: int|
                    0 <= k < getters@.len() ==> (#[trigger] getters@[k])@.len() == row_count,
                txn_visit_spec(filter, start, cols, i as int) == (TxnOutcome {
                    txns: self.set_transactions@,
                    error: None,
                }),
            decreases row_count - i,
        {
            assert(cols[APP_ID_INDEX as int] == getters@[APP_ID_INDEX as int]@);
            let found: Option<&String> = match getters[APP_ID_INDEX].get_str(i) {
                Ok(found) => found,
                Err(e) => {
                    proof {
                        lemma_txn_error_ends_visit(filter, start, cols, i + 1, row_count as int);
                    }
                    return Err(e);
                },
            };
            match found {
                Some(app_id) => {
                    // If a single application is asked for, only its markers
                    // are visited.
                    let wanted: bool = match &self.application_id {
                        Some(requested) => *requested == *app_id,
                        None => true,
                    };
                    if wanted {
                        match Self::visit_txn(i, app_id.clone(), getters) {
                            Ok(txn) => {
                                if !self.set_transactions.contains_key(&txn.app_id) {
                                    self.set_transactions.insert(txn);
                                }
                            },
                            Err(e) => {
                                proof {
                                    lemma_txn_error_ends_visit(
                                        filter,
                                        start,
                                        cols,
                                        i + 1,
                                        row_count as int,
                                    );
                                }
                                return Err(e);
                            },
                        }
                    }
                },
                None => {},
            }
            i += 1;
        }
        Ok(())
    }

    /// Visits the rows of a batch: selects from it the columns that this
    /// visitor reads, and visits them.
    pub fn visit_rows_of(&mut self, data: &ActionBatch) -> (r: DeltaResult<()>)
        ensures
            final(self).application_id == old(self).application_id,
            ({
                let out = txn_batch_outcome(old(self).filter(), old(self).set_transactions@, data@);
                &&& final(self).set_transactions@ == out.txns
                &&& match out.error {
                    Some(e) => r matches Err(x) && x == e,
                    None => r is Ok,
                }
            }),
    {
        let (names, _types) = self.selected_column_names_and_types();
        let getters = data.select(&names)?;
        let row_count: usize = data.len();
        self.visit(row_count, getters.as_slice())
    }
}

} // verus!
