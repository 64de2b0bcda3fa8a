//! Replay of the file actions of a log into the live files of a table.
//!
//! A visitor walks the rows of one batch. It keeps a row only if the row is
//! an add whose file has not been seen before in the scan and whose partition
//! values the partition filter does not rule out, and it pairs every row it
//! keeps with the expression that maps the file's physical columns to the
//! logical schema.

use crate::engine_data::{
    getter_views, item_view, item_views, map_lookup, required, ActionBatch, BatchView, Column,
    ColumnView, StringMap,
};
use crate::error::{result_view, DeltaResult, Error, Violation};
use crate::expressions::{
    transform_view, ExprView, Expression, Scalar, ScalarView, Transform, TransformExpr,
    TransformExprView,
};
use crate::log_replay::{file_action_in, FileActionDeduplicator, FileActionKeySet, FileKey};
use crate::partition::{parse_partition_value, parse_partition_value_spec};
use crate::predicates::{eval_sql_where, Bindings, ColumnResolver, DefaultPredicateEvaluator};
use crate::scan::data_skipping::{is_skipped, skipping_predicate, DataSkippingFilter};
use crate::scan::scan_row::{scan_rows, scan_rows_spec};
use crate::schema::{
    ColumnName, DataType, DataTypeView, MapType, PrimitiveType, StructFieldView, StructType,
};
use crate::utils::{
    first_error, lemma_first_error, lemma_first_error_related, try_collect, values_of,
};
use std::collections::HashMap;
use vstd::prelude::*;
use vstd::std_specs::hash::*;

verus! {

broadcast use vstd::std_specs::hash::group_hash_axioms;

/// The position, among the columns a visitor selects, of the path of an add.
pub const ADD_PATH_INDEX: usize = 0;

/// The position of the partition values of an add.
pub const ADD_PARTITION_VALUES_INDEX: usize = 1;

/// The position of the first of the three deletion vector columns of an add.
pub const ADD_DV_START_INDEX: usize = 2;

/// The position of the path of a remove.
pub const REMOVE_PATH_INDEX: usize = 5;

/// The position of the first of the three deletion vector columns of a remove.
pub const REMOVE_DV_START_INDEX: usize = 6;

/// The partition values of one file by the index of their logical field: the
/// physical name of the column and the parsed value.
pub type PartitionValues = HashMap<usize, (String, Scalar)>;

/// The mathematical value of [`PartitionValues`].
pub type ParsedValues = Map<usize, (Seq<char>, ScalarView)>;

pub open spec fn parsed_view(m: Map<usize, (String, Scalar)>) -> ParsedValues {
    Map::new(|k: usize| m.contains_key(k), |k: usize| (m[k].0@, m[k].1@))
}

/// The mathematical value of one parsed partition value with its field.
pub open spec fn entry_view(e: (usize, (String, Scalar))) -> (usize, (Seq<char>, ScalarView)) {
    (e.0, (e.1.0@, e.1.1@))
}

/// The parsed partition value of the logical field `field_idx`: its index,
/// and with the physical name of the field the value that `raw` records
/// under that name, decoded by the type of the field.
pub open spec fn parse_field_spec(
    schema: Seq<StructFieldView>,
    field_idx: usize,
    raw: Seq<(Seq<char>, Seq<char>)>,
) -> Result<(usize, (Seq<char>, ScalarView)), Error> {
    if field_idx < schema.len() {
        let field = schema[field_idx as int];
        match parse_partition_value_spec(map_lookup(raw, field.physical_name()), field.data_type) {
            Ok(v) => Ok((field_idx, (field.physical_name(), v))),
            Err(e) => Err(e),
        }
    } else {
        Err(Error::InternalError(Violation::PartitionFieldOutOfBounds(field_idx)))
    }
}

/// The fields that the partition slots of a transform name, in the order of
/// the slots.
pub open spec fn partition_fields(t: Seq<TransformExprView>) -> Seq<usize>
    decreases t.len(),
{
    if t.len() == 0 {
        Seq::empty()
    } else {
        match t.last() {
            TransformExprView::Partition(i) => partition_fields(t.drop_last()).push(i),
            TransformExprView::Static(_) => partition_fields(t.drop_last()),
        }
    }
}

/// The outcome of parsing each partition field of a transform, in order.
pub open spec fn parsed_fields(
    schema: Seq<StructFieldView>,
    t: Seq<TransformExprView>,
    raw: Seq<(Seq<char>, Seq<char>)>,
) -> Seq<Result<(usize, (Seq<char>, ScalarView)), Error>> {
    partition_fields(t).map_values(|i: usize| parse_field_spec(schema, i, raw))
}

/// The parsed partition values of a file: one for each field that a
/// partition slot of the transform names. The first field that cannot be
/// parsed fails the whole.
pub open spec fn parse_partition_values_spec(
    schema: Seq<StructFieldView>,
    t: Seq<TransformExprView>,
    raw: Seq<(Seq<char>, Seq<char>)>,
) -> Result<ParsedValues, Error> {
    match first_error(parsed_fields(schema, t, raw)) {
        Some(e) => Err(e),
        None => Ok(
            Map::new(
                |k: usize| partition_fields(t).contains(k),
                |k: usize| parse_field_spec(schema, k, raw)->Ok_0.1,
            ),
        ),
    }
}

/// Whether one of the first `k` slots of a transform is the partition slot of
/// the field `field_idx`.
pub open spec fn named_before(t: Seq<TransformExprView>, field_idx: usize, k: int) -> bool {
    exists|j: int| 0 <= j < k && #[trigger] t[j] == TransformExprView::Partition(field_idx)
}

proof fn lemma_named_before_step(t: Seq<TransformExprView>, field_idx: usize, k: int)
    requires
        0 <= k < t.len(),
    ensures
        named_before(t, field_idx, k + 1) == (named_before(t, field_idx, k) || t[k]
            == TransformExprView::Partition(field_idx)),
{
    if named_before(t, field_idx, k + 1) {
        let j = choose|j: int|
            0 <= j < k + 1 && #[trigger] t[j] == TransformExprView::Partition(field_idx);
        if j < k {
            assert(named_before(t, field_idx, k));
        }
    }
    if named_before(t, field_idx, k) {
        let j = choose|j: int|
            0 <= j < k && #[trigger] t[j] == TransformExprView::Partition(field_idx);
        assert(0 <= j < k + 1 && t[j] == TransformExprView::Partition(field_idx));
    }
    if t[k] == TransformExprView::Partition(field_idx) {
        assert(0 <= k < k + 1 && t[k] == TransformExprView::Partition(field_idx));
    }
}

/// The expression of slot `k` of a transform for a file with the given
/// partition values. A partition slot is the literal of the value of its
/// field. Each value can be used once: a partition slot whose field has no
/// value, or whose field an earlier slot has named, fails.
pub open spec fn slot_expr(t: Seq<TransformExprView>, parsed: ParsedValues, k: int) -> Result<
    ExprView,
    Error,
> {
    match t[k] {
        TransformExprView::Partition(field_idx) => if parsed.contains_key(field_idx)
            && !named_before(t, field_idx, k) {
            Ok(ExprView::Literal(parsed[field_idx].1))
        } else {
            Err(Error::InternalError(Violation::MissingPartitionValue(field_idx)))
        },
        TransformExprView::Static(e) => Ok(e),
    }
}

/// The expressions of all the slots of a transform, in order.
pub open spec fn slot_exprs(t: Seq<TransformExprView>, parsed: ParsedValues) -> Seq<
    Result<ExprView, Error>,
> {
    Seq::new(t.len(), |k: int| slot_expr(t, parsed, k))
}

/// The expression that maps the physical columns of a file to the logical
/// schema: the struct of the expressions of the slots of the transform.
pub open spec fn transform_expr_spec(t: Seq<TransformExprView>, parsed: ParsedValues) -> Result<
    ExprView,
    Error,
> {
    match first_error(slot_exprs(t, parsed)) {
        Some(e) => Err(e),
        None => Ok(ExprView::Struct(values_of(slot_exprs(t, parsed)))),
    }
}

/// Whether `i` is the least field whose partition column is named `name`.
pub open spec fn is_least_field_named(parsed: ParsedValues, name: Seq<char>, i: usize) -> bool {
    &&& parsed.contains_key(i)
    &&& parsed[i].0 == name
    &&& forall|j: usize| parsed.contains_key(j) && parsed[j].0 == name ==> i <= j
}

/// The bindings of the partition columns of a file: each physical name is
/// bound to the value parsed for it. Should two fields share a name, the
/// value of the field with the lesser index counts.
pub open spec fn partition_bindings(parsed: ParsedValues) -> Bindings {
    Map::new(
        |c: Seq<Seq<char>>|
            c.len() == 1 && exists|i: usize| parsed.contains_key(i) && parsed[i].0 == c[0],
        |c: Seq<Seq<char>>| parsed[choose|i: usize| is_least_field_named(parsed, c[0], i)].1,
    )
}

/// Whether the partition filter rules a file out: there is a filter, the
/// file has partition values, and the filter, taken as the filter of a query
/// over the partition columns, is false.
pub open spec fn is_pruned_spec(filter: Option<ExprView>, parsed: ParsedValues) -> bool {
    match filter {
        Some(f) => !parsed.dom().is_empty() && eval_sql_where(partition_bindings(parsed), f)
            == Some(false),
        None => false,
    }
}

/// Resolves the partition columns of one file from its parsed values.
pub struct PartitionResolver<'a> {
    pub values: &'a PartitionValues,
}

impl<'a> ColumnResolver for PartitionResolver<'a> {
    open spec fn bindings(&self) -> Bindings {
        partition_bindings(parsed_view(self.values@))
    }

    fn resolve_column(&self, name: &ColumnName) -> (r: Option<Scalar>) {
        if name.path.len() != 1 {
            return None;
        }
        let ghost parsed = parsed_view(self.values@);
        let ghost wanted = name@[0];
        let mut best: Option<usize> = None;
        for k in it: self.values.keys()
            invariant
                parsed == parsed_view(self.values@),
                name.path.len() == 1,
                wanted == name.path[0]@,
                best matches Some(b) ==> parsed.contains_key(b) && parsed[b].0 == wanted,
                forall|j: int|
                    0 <= j < it.index() && parsed.contains_key(*it.seq()[j]) && parsed[*it.seq()[j]].0
                        == wanted ==> best is Some && best->0 <= *it.seq()[j],
                it.seq().unref().to_set() == self.values@.dom(),
        {
            match self.values.get(k) {
                Some(entry) => {
                    if entry.0 == name.path[0] {
                        match best {
                            Some(b) => {
                                if *k < b {
                                    best = Some(*k);
                                }
                            },
                            None => {
                                best = Some(*k);
                            },
                        }
                    }
                },
                None => {},
            }
        }
        match best {
            Some(b) => {
                proof {
                    assert(is_least_field_named(parsed, wanted, b)) by {
                        assert forall|j: usize|
                            parsed.contains_key(j) && parsed[j].0 == wanted implies b <= j by {
                            assert(self.values@.dom().contains(j));
                        }
                    }
                    let c = choose|i: usize| is_least_field_named(parsed, wanted, i);
                    assert(c == b);
                }
                match self.values.get(&b) {
                    Some(entry) => Some(entry.1.clone()),
                    None => None,
                }
            },
            None => {
                proof {
                    assert forall|j: usize| parsed.contains_key(j) implies parsed[j].0
                        != wanted by {
                        assert(self.values@.dom().contains(j));
                    }
                }
                None
            },
        }
    }
}

/// What the visit of one row leaves behind: the keys seen after it, and
/// either whether the row stays selected, with its transform expression if it
/// has one, or the failure of the row.
pub struct RowOutcome {
    pub seen: Set<FileKey>,
    pub result: Result<(bool, Option<ExprView>), Error>,
}

/// The state of the visit of a batch: the keys seen, the selection vector,
/// the transform expressions gathered, and the failure that ended the visit,
/// if one did.
pub struct BatchOutcome {
    pub seen: Set<FileKey>,
    pub selection: Seq<bool>,
    pub transforms: Seq<Option<ExprView>>,
    pub error: Option<Error>,
}

/// The number of columns that a visitor selects: the five columns of adds
/// and, in a batch of a commit, the four columns of removes.
pub open spec fn expected_getters(is_log_batch: bool) -> int {
    if is_log_batch {
        9
    } else {
        5
    }
}

/// The file action in row `i` of the columns that a visitor selects. Removes
/// are read in the batches of commits only.
pub open spec fn row_file_action(cfg: ReplayConfig, cols: Seq<ColumnView>, i: int) -> Result<
    Option<(FileKey, bool)>,
    Error,
> {
    file_action_in(
        cols,
        i,
        !cfg.is_log_batch,
        ADD_PATH_INDEX as int,
        ADD_DV_START_INDEX as int,
        REMOVE_PATH_INDEX as int,
        REMOVE_DV_START_INDEX as int,
    )
}

/// The parsed partition values of the add in row `i`. An add must record its
/// partition values.
pub open spec fn row_partition_values(
    cfg: ReplayConfig,
    t: Seq<TransformExprView>,
    cols: Seq<ColumnView>,
    i: int,
) -> Result<ParsedValues, Error> {
    match required(cols[ADD_PARTITION_VALUES_INDEX as int].map_at(i)) {
        Err(e) => Err(e),
        Ok(raw) => parse_partition_values_spec(cfg.schema, t, raw),
    }
}

/// The outcome for a file action that partition pruning has let through:
/// its key is recorded as seen. The row stays selected if it is an add whose
/// key had not been seen; it then gets its transform expression, if a
/// transform is requested.
pub open spec fn deduplicated(
    cfg: ReplayConfig,
    seen: Set<FileKey>,
    key: FileKey,
    is_add: bool,
    parsed: ParsedValues,
) -> RowOutcome {
    if seen.contains(key) || !is_add {
        RowOutcome { seen: seen.insert(key), result: Ok((false, None)) }
    } else {
        match cfg.transform {
            Some(t) => match transform_expr_spec(t, parsed) {
                Err(e) => RowOutcome { seen: seen.insert(key), result: Err(e) },
                Ok(expr) => RowOutcome { seen: seen.insert(key), result: Ok((true, Some(expr))) },
            },
            None => RowOutcome { seen: seen.insert(key), result: Ok((true, None)) },
        }
    }
}

/// The outcome of visiting row `i` when the keys in `seen` have been seen.
///
/// A row without a file action is deselected. Where a transform is
/// requested, the partition values of an add are parsed, and an add that the
/// partition filter rules out is deselected without being recorded: an older
/// copy of the file may still survive. Removes are never pruned. Every other
/// file action is recorded and deduplicated.
pub open spec fn row_spec(cfg: ReplayConfig, seen: Set<FileKey>, cols: Seq<ColumnView>, i: int)
    -> RowOutcome {
    match row_file_action(cfg, cols, i) {
        Err(e) => RowOutcome { seen, result: Err(e) },
        Ok(None) => RowOutcome { seen, result: Ok((false, None)) },
        Ok(Some((key, is_add))) => if cfg.transform is Some && is_add {
            match row_partition_values(cfg, cfg.transform->Some_0, cols, i) {
                Err(e) => RowOutcome { seen, result: Err(e) },
                Ok(parsed) => if is_pruned_spec(cfg.filter, parsed) {
                    RowOutcome { seen, result: Ok((false, None)) }
                } else {
                    deduplicated(cfg, seen, key, is_add, parsed)
                },
            }
        } else {
            deduplicated(cfg, seen, key, is_add, Map::empty())
        },
    }
}

/// The list of `n` entries that starts like `ts` and is `None` beyond it.
pub open spec fn padded(ts: Seq<Option<ExprView>>, n: int) -> Seq<Option<ExprView>> {
    Seq::new(
        n as nat,
        |j: int|
            if j < ts.len() {
                ts[j]
            } else {
                None
            },
    )
}

/// The transform expressions after a row: the expression of row `i`, if it
/// has one, is put at index `i`, behind as many `None`s as it takes.
pub open spec fn placed(ts: Seq<Option<ExprView>>, i: int, t: Option<ExprView>) -> Seq<
    Option<ExprView>,
> {
    match t {
        Some(e) => padded(ts, i).push(Some(e)),
        None => ts,
    }
}

/// The state after the first `n` rows of a batch have been visited from the
/// state `start`. Rows that are not selected are passed over. The first row
/// that fails ends the visit: its failure is kept, with the keys seen by
/// then.
pub open spec fn visit_spec(cfg: ReplayConfig, start: BatchOutcome, cols: Seq<ColumnView>, n: int)
    -> BatchOutcome
    decreases n,
{
    if n <= 0 {
        start
    } else {
        let prev = visit_spec(cfg, start, cols, n - 1);
        if prev.error is Some || !prev.selection[n - 1] {
            prev
        } else {
            let row = row_spec(cfg, prev.seen, cols, n - 1);
            match row.result {
                Err(e) => BatchOutcome {
                    seen: row.seen,
                    selection: prev.selection,
                    transforms: prev.transforms,
                    error: Some(e),
                },
                Ok((keep, t)) => BatchOutcome {
                    seen: row.seen,
                    selection: prev.selection.update(n - 1, keep),
                    transforms: placed(prev.transforms, n - 1, t),
                    error: None,
                },
            }
        }
    }
}

/// The state after a visitor was handed the columns `cols` of a batch of
/// `row_count` rows. A wrong number of columns fails the visit at once.
pub open spec fn visit_outcome(
    cfg: ReplayConfig,
    start: BatchOutcome,
    cols: Seq<ColumnView>,
    row_count: int,
) -> BatchOutcome {
    if cols.len() != expected_getters(cfg.is_log_batch) {
        BatchOutcome {
            seen: start.seen,
            selection: start.selection,
            transforms: start.transforms,
            error: Some(Error::InternalError(Violation::WrongGetterCount(cols.len() as usize))),
        }
    } else {
        visit_spec(cfg, start, cols, row_count)
    }
}

/// Once a row has failed, the rest of the batch changes nothing.
pub proof fn lemma_error_ends_visit(
    cfg: ReplayConfig,
    start: BatchOutcome,
    cols: Seq<ColumnView>,
    n: int,
    m: int,
)
    requires
        n <= m,
        visit_spec(cfg, start, cols, n).error is Some,
    ensures
        visit_spec(cfg, start, cols, m) == visit_spec(cfg, start, cols, n),
    decreases m - n,
{
    if n < m {
        lemma_error_ends_visit(cfg, start, cols, n, m - 1);
    }
}

/// The names of the columns that a visitor selects, by whether the batch
/// comes from a commit: the columns of adds, then the columns of removes.
pub open spec fn selected_names(is_log_batch: bool) -> Seq<Seq<Seq<char>>> {
    let all = seq![
        seq!["add"@, "path"@],
        seq!["add"@, "partitionValues"@],
        seq!["add"@, "deletionVector"@, "storageType"@],
        seq!["add"@, "deletionVector"@, "pathOrInlineDv"@],
        seq!["add"@, "deletionVector"@, "offset"@],
        seq!["remove"@, "path"@],
        seq!["remove"@, "deletionVector"@, "storageType"@],
        seq!["remove"@, "deletionVector"@, "pathOrInlineDv"@],
        seq!["remove"@, "deletionVector"@, "offset"@],
    ];
    if is_log_batch {
        all
    } else {
        all.take(5)
    }
}

/// The types of the columns that a visitor selects.
pub open spec fn selected_types(is_log_batch: bool) -> Seq<DataTypeView> {
    let string = DataTypeView::Primitive(PrimitiveType::String);
    let integer = DataTypeView::Primitive(PrimitiveType::Integer);
    let all = seq![
        string,
        DataTypeView::MapOf(
            MapType {
                key_type: PrimitiveType::String,
                value_type: PrimitiveType::String,
                value_contains_null: true,
            },
        ),
        string,
        string,
        integer,
        string,
        string,
        string,
        integer,
    ];
    if is_log_batch {
        all
    } else {
        all.take(5)
    }
}

/// Makes the list `n` entries long: cuts it there, or fills it up with
/// `None`s.
fn pad_to(v: &mut Vec<Option<Expression>>, n: usize)
    ensures
        final(v).deep_view() == padded(old(v).deep_view(), n as int),
{
    let ghost before = v.deep_view();
    v.truncate(n);
    assert(v.deep_view() =~= padded(before, v.len() as int));
    while v.len() < n
        invariant
            v.len() <= n,
            before.len() <= v.len() || n <= v.len(),
            v.deep_view() == padded(before, v.len() as int),
        decreases n - v.len(),
    {
        let ghost was = v.deep_view();
        v.push(None);
        assert(v.deep_view() =~= was.push(None));
        assert(v.deep_view() =~= padded(before, v.len() as int));
    }
}

/// The mathematical value of the outcome of parsing one partition field.
pub open spec fn entry_result_view(r: DeltaResult<(usize, (String, Scalar))>) -> Result<
    (usize, (Seq<char>, ScalarView)),
    Error,
> {
    match r {
        Ok(e) => Ok(entry_view(e)),
        Err(x) => Err(x),
    }
}

/// What a visitor was set up with, as mathematical values.
pub struct ReplayConfig {
    /// The fields of the logical schema.
    pub schema: Seq<StructFieldView>,
    /// The transform, if one is requested.
    pub transform: Option<Seq<TransformExprView>>,
    /// The partition filter, if there is one.
    pub filter: Option<ExprView>,
    /// Whether the batch comes from a commit, not from a checkpoint.
    pub is_log_batch: bool,
}

/// A visitor that reconciles the adds and removes of one batch into the adds
/// that are live.
///
/// The log is replayed newest first. Once an action has been seen for a file,
/// every later action for the same file is ignored. If the first action for a
/// file is a remove, the file does not appear in the result at all.
pub struct AddRemoveDedupVisitor<'seen, 'a> {
    pub deduplicator: FileActionDeduplicator<'seen>,
    /// Which rows are still selected.
    pub selection_vector: Vec<bool>,
    pub logical_schema: &'a StructType,
    pub transform: Option<&'a Transform>,
    pub partition_filter: Option<&'a Expression>,
    /// The transform expression of each selected row, at the index of the
    /// row; `None` at the rows in between. Rows after the last selected row
    /// have no entry.
    pub row_transform_exprs: Vec<Option<Expression>>,
}

impl<'seen, 'a> AddRemoveDedupVisitor<'seen, 'a> {
    /// What this visitor was set up with.
    pub open spec fn config(&self) -> ReplayConfig {
        ReplayConfig {
            schema: self.logical_schema@,
            transform: match self.transform {
                Some(t) => Some(transform_view(t@)),
                None => None,
            },
            filter: match self.partition_filter {
                Some(f) => Some(f@),
                None => None,
            },
            is_log_batch: self.deduplicator.is_log_batch,
        }
    }

    /// Whether the deduplicator reads the columns at their agreed positions.
    pub open spec fn well_formed(&self) -> bool {
        &&& self.deduplicator.add_path_index == ADD_PATH_INDEX
        &&& self.deduplicator.remove_path_index == REMOVE_PATH_INDEX
        &&& self.deduplicator.add_dv_start_index == ADD_DV_START_INDEX
        &&& self.deduplicator.remove_dv_start_index == REMOVE_DV_START_INDEX
    }

    /// The keys of the file actions seen so far in the scan.
    pub open spec fn seen(&self) -> Set<FileKey> {
        self.deduplicator.seen()
    }

    /// The transform expressions gathered so far.
    pub open spec fn transforms(&self) -> Seq<Option<ExprView>> {
        self.row_transform_exprs.deep_view()
    }

    pub fn new(
        seen: &'seen mut FileActionKeySet,
        selection_vector: Vec<bool>,
        logical_schema: &'a StructType,
        transform: Option<&'a Transform>,
        partition_filter: Option<&'a Expression>,
        is_log_batch: bool,
    ) -> (r: AddRemoveDedupVisitor<'seen, 'a>)
        ensures
            r.well_formed(),
            r.seen() == old(seen)@,
            *final(r.deduplicator.seen_file_keys) == *final(seen),
            r.selection_vector == selection_vector,
            r.logical_schema == logical_schema,
            r.transform == transform,
            r.partition_filter == partition_filter,
            r.deduplicator.is_log_batch == is_log_batch,
            r.row_transform_exprs@.len() == 0,
    {
        AddRemoveDedupVisitor {
            deduplicator: FileActionDeduplicator::new(
                seen,
                is_log_batch,
                ADD_PATH_INDEX,
                REMOVE_PATH_INDEX,
                ADD_DV_START_INDEX,
                REMOVE_DV_START_INDEX,
            ),
            selection_vector,
            logical_schema,
            transform,
            partition_filter,
            row_transform_exprs: Vec::new(),
        }
    }

    /// Parses the partition value of the logical field `field_idx` from the
    /// partition values recorded for a file.
    pub fn parse_partition_value(&self, field_idx: usize, partition_values: &StringMap) -> (r:
        DeltaResult<(usize, (String, Scalar))>)
        ensures
            entry_result_view(r) == parse_field_spec(
                self.logical_schema@,
                field_idx,
                partition_values.deep_view(),
            ),
    {
        let Some(field) = self.logical_schema.get_index(field_idx) else {
            return Err(Error::InternalError(Violation::PartitionFieldOutOfBounds(field_idx)));
        };
        let name: &String = field.physical_name();
        let value = parse_partition_value(
            crate::engine_data::lookup(partition_values, name),
            field.data_type(),
        )?;
        Ok((field_idx, (name.clone(), value)))
    }

    /// Parses the partition values of a file: one for each field that a
    /// partition slot of the transform names.
    pub fn parse_partition_values(&self, transform: &Transform, partition_values: &StringMap) -> (r:
        DeltaResult<PartitionValues>)
        ensures
            match parse_partition_values_spec(
                self.logical_schema@,
                transform_view(transform@),
                partition_values.deep_view(),
            ) {
                Ok(m) => r matches Ok(found) && parsed_view(found@) == m,
                Err(e) => r matches Err(x) && x == e,
            },
    {
        let ghost schema = self.logical_schema@;
        let ghost tv = transform_view(transform@);
        let ghost raw = partition_values.deep_view();
        let mut parsed: Vec<DeltaResult<(usize, (String, Scalar))>> = Vec::new();
        let mut k: usize = 0;
        assert(tv.take(0) =~= Seq::<TransformExprView>::empty());
        while k < transform.len()
            invariant
                k <= transform.len(),
                schema == self.logical_schema@,
                tv == transform_view(transform@),
                raw == partition_values.deep_view(),
                parsed@.len() == partition_fields(tv.take(k as int)).len(),
                forall|j: int|
                    0 <= j < parsed@.len() ==> entry_result_view(#[trigger] parsed@[j])
                        == parse_field_spec(schema, partition_fields(tv.take(k as int))[j], raw),
            decreases transform.len() - k,
        {
            proof {
                assert(tv.take(k + 1).drop_last() =~= tv.take(k as int));
                assert(tv.take(k + 1).last() == transform@[k as int]@);
            }
            match &transform[k] {
                TransformExpr::Partition(field_idx) => {
                    parsed.push(self.parse_partition_value(*field_idx, partition_values));
                },
                TransformExpr::Static(_) => {},
            }
            k += 1;
        }
        assert(tv.take(k as int) =~= tv);
        let ghost fields = partition_fields(tv);
        let ghost expected = parsed_fields(schema, tv, raw);
        let ghost outcomes = parsed@;
        proof {
            lemma_first_error_related(outcomes, expected);
            lemma_first_error(outcomes);
        }
        let mut entries = try_collect(parsed)?;
        let ghost all = entries@;
        assert(all == values_of(outcomes));
        assert forall|j: int| 0 <= j < all.len() implies entry_view(#[trigger] all[j]) == (
            fields[j],
            parse_field_spec(schema, fields[j], raw)->Ok_0.1,
        ) && parse_field_spec(schema, fields[j], raw) is Ok by {
            assert(entry_result_view(outcomes[j]) == expected[j]);
            assert(outcomes[j] is Ok);
        }
        let mut map: PartitionValues = HashMap::new();
        loop
            invariant
                entries@.len() <= all.len(),
                entries@ == all.take(entries@.len() as int),
                all.len() == fields.len(),
                forall|j: int|
                    0 <= j < all.len() ==> entry_view(#[trigger] all[j]) == (
                        fields[j],
                        parse_field_spec(schema, fields[j], raw)->Ok_0.1,
                    ),
                forall|key: usize|
                    map@.contains_key(key) <==> exists|j: int|
                        entries@.len() <= j < all.len() && fields[j] == key,
                forall|key: usize|
                    map@.contains_key(key) ==> (map@[key].0@, map@[key].1@) == parse_field_spec(
                        schema,
                        key,
                        raw,
                    )->Ok_0.1,
            ensures
                entries@.len() == 0,
            decreases entries@.len(),
        {
            let ghost n = entries@.len() as int;
            match entries.pop() {
                Some(entry) => {
                    assert(entry == all[n - 1]);
                    assert(entry_view(all[n - 1]).0 == fields[n - 1]);
                    let ghost before = map@;
                    let (field_idx, value) = entry;
                    map.insert(field_idx, value);
                    assert(entries@ =~= all.take(n - 1));
                    assert forall|key: usize| map@.contains_key(key) <==> exists|j: int|
                        n - 1 <= j < all.len() && fields[j] == key by {
                        if before.contains_key(key) {
                            let j = choose|j: int| n <= j < all.len() && fields[j] == key;
                            assert(n - 1 <= j < all.len() && fields[j] == key);
                        }
                        if key == field_idx {
                            assert(fields[n - 1] == key);
                        }
                        if exists|j: int| n - 1 <= j < all.len() && fields[j] == key {
                            let j = choose|j: int| n - 1 <= j < all.len() && fields[j] == key;
                            if j >= n {
                                assert(before.contains_key(key));
                            }
                        }
                    }
                },
                None => {
                    break ;
                },
            }
        }
        proof {
            let want = parse_partition_values_spec(schema, tv, raw)->Ok_0;
            assert forall|key: usize| parsed_view(map@).contains_key(key) == want.contains_key(
                key,
            ) by {
                if map@.contains_key(key) {
                    let j = choose|j: int| 0 <= j < all.len() && fields[j] == key;
                    assert(fields.contains(key));
                }
                if fields.contains(key) {
                    let j = choose|j: int| 0 <= j < fields.len() && fields[j] == key;
                    assert(0 <= j < all.len() && fields[j] == key);
                }
            }
            assert(parsed_view(map@) =~= want);
        }
        Ok(map)
    }

    /// The expression that maps the physical columns of a file with the given
    /// partition values to the logical schema.
    pub fn get_transform_expr(&self, transform: &Transform, partition_values: PartitionValues) -> (r:
        DeltaResult<Expression>)
        ensures
            result_view(r) == transform_expr_spec(
                transform_view(transform@),
                parsed_view(partition_values@),
            ),
    {
        let ghost parsed = parsed_view(partition_values@);
        let ghost tv = transform_view(transform@);
        let mut remaining = partition_values;
        let mut slots: Vec<DeltaResult<Expression>> = Vec::new();
        let mut k: usize = 0;
        while k < transform.len()
            invariant
                k <= transform.len(),
                tv == transform_view(transform@),
                slots@.len() == k,
                forall|j: int| 0 <= j < k ==> result_view(#[trigger] slots@[j]) == slot_expr(tv, parsed, j),
                forall|key: usize|
                    remaining@.contains_key(key) <==> parsed.contains_key(key) && !named_before(
                        tv,
                        key,
                        k as int,
                    ),
                forall|key: usize|
                    remaining@.contains_key(key) ==> remaining@[key].1@ == parsed[key].1,
            decreases transform.len() - k,
        {
            assert(tv[k as int] == transform@[k as int]@);
            let ghost before = remaining@;
            match &transform[k] {
                TransformExpr::Partition(field_idx) => {
                    match remaining.remove(field_idx) {
                        Some(entry) => {
                            slots.push(Ok(Expression::Literal(entry.1)));
                        },
                        None => {
                            slots.push(
                                Err(
                                    Error::InternalError(
                                        Violation::MissingPartitionValue(*field_idx),
                                    ),
                                ),
                            );
                        },
                    }
                    assert(remaining@ == before.remove(*field_idx));
                },
                TransformExpr::Static(e) => {
                    slots.push(Ok(e.clone()));
                },
            }
            assert(remaining@ == match tv[k as int] {
                TransformExprView::Partition(f) => before.remove(f),
                TransformExprView::Static(_) => before,
            });
            k += 1;
            assert forall|key: usize| remaining@.contains_key(key) <==> parsed.contains_key(key)
                && !named_before(tv, key, k as int) by {
                lemma_named_before_step(tv, key, k - 1);
            }
        }
        let ghost outcomes = slots@;
        let ghost expected = slot_exprs(tv, parsed);
        proof {
            assert forall|i: int| 0 <= i < outcomes.len() implies match (
                #[trigger] outcomes[i],
                expected[i],
            ) {
                (Ok(_), Ok(_)) => true,
                (Err(a), Err(b)) => a == b,
                _ => false,
            } by {
                assert(result_view(outcomes[i]) == slot_expr(tv, parsed, i));
            }
            lemma_first_error_related(outcomes, expected);
            lemma_first_error(outcomes);
        }
        let exprs = try_collect(slots)?;
        let r = Expression::Struct(exprs);
        proof {
            assert(exprs@ == values_of(outcomes));
            assert forall|i: int| 0 <= i < exprs@.len() implies exprs@[i]@ == values_of(
                expected,
            )[i] by {
                assert(result_view(outcomes[i]) == slot_expr(tv, parsed, i));
                assert(outcomes[i] is Ok);
            }
            assert(r@->Struct_0 =~= values_of(expected));
        }
        Ok(r)
    }

    /// Whether the partition filter rules out a file with the given partition
    /// values.
    pub fn is_file_partition_pruned(&self, partition_values: &PartitionValues) -> (r: bool)
        ensures
            r == is_pruned_spec(self.config().filter, parsed_view(partition_values@)),
    {
        if partition_values.is_empty() {
            assert(parsed_view(partition_values@).dom() =~= partition_values@.dom());
            return false;
        }
        let Some(partition_filter) = self.partition_filter else {
            return false;
        };
        assert(parsed_view(partition_values@).dom() =~= partition_values@.dom());
        let evaluator = DefaultPredicateEvaluator::new(PartitionResolver { values: partition_values });
        match evaluator.eval_sql_where(partition_filter) {
            Some(keep) => !keep,
            None => false,
        }
    }
}

impl<'seen, 'a> AddRemoveDedupVisitor<'seen, 'a> {
    /// The state of the visit so far.
    pub open spec fn state(&self) -> BatchOutcome {
        BatchOutcome {
            seen: self.seen(),
            selection: self.selection_vector@,
            transforms: self.transforms(),
            error: None,
        }
    }

    /// Visits row `i`: whether the row holds an add that survives the replay.
    /// The row does not if it holds no add, if the partition filter rules its
    /// file out, or if its file has been seen before.
    pub fn is_valid_add(&mut self, i: usize, getters: &[&Column]) -> (r: DeltaResult<bool>)
        requires
            old(self).well_formed(),
            getters@.len() >= expected_getters(old(self).deduplicator.is_log_batch),
            forall|k: int| 0 <= k < getters@.len() ==> i < (#[trigger] getters@[k])@.len(),
        ensures
            final(self).well_formed(),
            final(self).config() == old(self).config(),
            final(self).selection_vector == old(self).selection_vector,
            *final(final(self).deduplicator.seen_file_keys) == *final(old(self).deduplicator.seen_file_keys),
            ({
                let out = row_spec(
                    old(self).config(),
                    old(self).seen(),
                    getter_views(getters@),
                    i as int,
                );
                &&& final(self).seen() == out.seen
                &&& match out.result {
                    Err(e) => r matches Err(x) && x == e && final(self).transforms()
                        == old(self).transforms(),
                    Ok((keep, t)) => r == Ok::<bool, Error>(keep) && final(self).transforms()
                        == placed(old(self).transforms(), i as int, t),
                }
            }),
    {
        let ghost cols = getter_views(getters@);
        let is_log_batch: bool = self.deduplicator.is_log_batch();
        // Removes are not read in the batch of a checkpoint: it holds no
        // columns for them.
        let extracted = self.deduplicator.extract_file_action(i, getters, !is_log_batch)?;
        let Some((file_key, is_add)) = extracted else {
            return Ok(false);
        };
        // Partition pruning applies to adds only, and comes before
        // deduplication, so that a pruned file is not recorded. A remove is
        // never pruned: it is needed to suppress older adds of its file.
        let partition_values: PartitionValues = match self.transform {
            Some(transform) => {
                if is_add {
                    assert(cols[ADD_PARTITION_VALUES_INDEX as int]
                        == getters@[ADD_PARTITION_VALUES_INDEX as int]@);
                    let raw: &StringMap = match getters[ADD_PARTITION_VALUES_INDEX].get_map(i)? {
                        Some(m) => m,
                        None => {
                            return Err(Error::MissingData);
                        },
                    };
                    let parsed = self.parse_partition_values(transform, raw)?;
                    if self.is_file_partition_pruned(&parsed) {
                        return Ok(false);
                    }
                    parsed
                } else {
                    HashMap::new()
                }
            },
            None => HashMap::new(),
        };
        assert(!(self.transform is Some && is_add) ==> parsed_view(partition_values@)
            =~= Map::<usize, (Seq<char>, ScalarView)>::empty());
        if self.deduplicator.check_and_record_seen(file_key) || !is_add {
            return Ok(false);
        }
        match self.transform {
            Some(transform) => {
                let expr = self.get_transform_expr(transform, partition_values)?;
                let ghost before = self.row_transform_exprs.deep_view();
                pad_to(&mut self.row_transform_exprs, i);
                let ghost filled = self.row_transform_exprs.deep_view();
                self.row_transform_exprs.push(Some(expr));
                assert(self.row_transform_exprs.deep_view() =~= filled.push(Some(expr@)));
            },
            None => {},
        }
        Ok(true)
    }

    /// The names and types of the columns that this visitor reads, in the
    /// order in which it reads them: the columns of adds and, for the batch
    /// of a commit, the columns of removes.
    pub fn selected_column_names_and_types(&self) -> (r: (Vec<ColumnName>, Vec<DataType>))
        ensures
            r.0.deep_view() == selected_names(self.deduplicator.is_log_batch),
            r.1@.map_values(|t: DataType| t@) == selected_types(self.deduplicator.is_log_batch),
    {
        let string_map = MapType::new(PrimitiveType::String, PrimitiveType::String, true);
        let mut names: Vec<ColumnName> = Vec::new();
        let mut types: Vec<DataType> = Vec::new();
        names.push(ColumnName::of2("add", "path"));
        types.push(DataType::Primitive(PrimitiveType::String));
        names.push(ColumnName::of2("add", "partitionValues"));
        types.push(DataType::MapOf(string_map));
        names.push(ColumnName::of3("add", "deletionVector", "storageType"));
        types.push(DataType::Primitive(PrimitiveType::String));
        names.push(ColumnName::of3("add", "deletionVector", "pathOrInlineDv"));
        types.push(DataType::Primitive(PrimitiveType::String));
        names.push(ColumnName::of3("add", "deletionVector", "offset"));
        types.push(DataType::Primitive(PrimitiveType::Integer));
        if self.deduplicator.is_log_batch() {
            names.push(ColumnName::of2("remove", "path"));
            types.push(DataType::Primitive(PrimitiveType::String));
            names.push(ColumnName::of3("remove", "deletionVector", "storageType"));
            types.push(DataType::Primitive(PrimitiveType::String));
            names.push(ColumnName::of3("remove", "deletionVector", "pathOrInlineDv"));
            types.push(DataType::Primitive(PrimitiveType::String));
            names.push(ColumnName::of3("remove", "deletionVector", "offset"));
            types.push(DataType::Primitive(PrimitiveType::Integer));
        }
        assert(names.deep_view() =~= selected_names(self.deduplicator.is_log_batch));
        assert(types@.map_values(|t: DataType| t@) =~= selected_types(
            self.deduplicator.is_log_batch,
        ));
        (names, types)
    }

    /// Visits the rows of a batch, of which `getters` are the selected
    /// columns: every row that is selected is visited in turn, and stays
    /// selected only if it holds an add that survives the replay.
    pub fn visit(&mut self, row_count: usize, getters: &[&Column]) -> (r: DeltaResult<()>)
        requires
            old(self).well_formed(),
            old(self).selection_vector@.len() == row_count,
            forall|k: int| 0 <= k < getters@.len() ==> (#[trigger] getters@[k])@.len() == row_count,
        ensures
            final(self).well_formed(),
            final(self).config() == old(self).config(),
            *final(final(self).deduplicator.seen_file_keys) == *final(old(self).deduplicator.seen_file_keys),
            ({
                let out = visit_outcome(
                    old(self).config(),
                    old(self).state(),
                    getter_views(getters@),
                    row_count as int,
                );
                &&& final(self).seen() == out.seen
                &&& final(self).selection_vector@ == out.selection
                &&& final(self).transforms() == out.transforms
                &&& match out.error {
                    Some(e) => r matches Err(x) && x == e,
                    None => r is Ok,
                }
            }),
    {
        let is_log_batch: bool = self.deduplicator.is_log_batch();
        let expected: usize = if is_log_batch {
            9
        } else {
            5
        };
        if getters.len() != expected {
            return Err(Error::InternalError(Violation::WrongGetterCount(getters.len())));
        }
        let ghost cfg = self.config();
        let ghost start = self.state();
        let ghost cols = getter_views(getters@);
        let mut i: usize = 0;
        while i < row_count
            invariant
                i <= row_count,
                self.well_formed(),
                self.config() == cfg,
                cfg == old(self).config(),
                start == old(self).state(),
                cfg.is_log_batch == is_log_batch,
                getters@.len() == expected_getters(is_log_batch),
                cols == getter_views(getters@),
                self.selection_vector@.len() == row_count,
                forall|k: int|
                    0 <= k < getters@.len() ==> (#[trigger] getters@[k])@.len() == row_count,
                *final(self.deduplicator.seen_file_keys) == *final(old(self).deduplicator.seen_file_keys),
                self.state() == visit_spec(cfg, start, cols, i as int),
            decreases row_count - i,
        {
            if self.selection_vector[i] {
                match self.is_valid_add(i, getters) {
                    Ok(keep) => {
                        self.selection_vector.set(i, keep);
                    },
                    Err(e) => {
                        proof {
                            lemma_error_ends_visit(cfg, start, cols, i + 1, row_count as int);
                        }
                        return Err(e);
                    },
                }
            }
            i += 1;
        }
        Ok(())
    }

    /// Visits the rows of a batch: selects from it the columns that this
    /// visitor reads, and visits them.
    pub fn visit_rows_of(&mut self, data: &ActionBatch) -> (r: DeltaResult<()>)
        requires
            old(self).well_formed(),
            old(self).selection_vector@.len() == data@.num_rows,
        ensures
            final(self).well_formed(),
            final(self).config() == old(self).config(),
            *final(final(self).deduplicator.seen_file_keys) == *final(old(self).deduplicator.seen_file_keys),
            ({
                let out = batch_outcome(old(self).config(), old(self).state(), data@);
                &&& final(self).seen() == out.seen
                &&& final(self).selection_vector@ == out.selection
                &&& final(self).transforms() == out.transforms
                &&& match out.error {
                    Some(e) => r matches Err(x) && x == e,
                    None => r is Ok,
                }
            }),
    {
        let (names, _types) = self.selected_column_names_and_types();
        let getters = data.select(&names)?;
        let row_count: usize = data.len();
        self.visit(row_count, getters.as_slice())
    }
}

/// The state after a visitor has visited a batch from the state `start`. A
/// batch that lacks one of the columns the visitor reads fails the visit at
/// once.
pub open spec fn batch_outcome(cfg: ReplayConfig, start: BatchOutcome, batch: BatchView)
    -> BatchOutcome {
    match batch.select(selected_names(cfg.is_log_batch)) {
        Err(e) => BatchOutcome {
            seen: start.seen,
            selection: start.selection,
            transforms: start.transforms,
            error: Some(e),
        },
        Ok(cols) => visit_outcome(cfg, start, cols, batch.num_rows as int),
    }
}

/// What a scan hands out for one batch: the scan rows of all the rows of
/// the batch, the selection vector that says which of them count, and the
/// transform expressions of the selected rows.
pub type ScanData = (ActionBatch, Vec<bool>, Vec<Option<Expression>>);

/// The mathematical value of [`ScanData`].
pub type ScanDataView = (BatchView, Seq<bool>, Seq<Option<ExprView>>);

pub open spec fn scan_data_view(d: ScanData) -> ScanDataView {
    (d.0@, d.1@, d.2.deep_view())
}

pub open spec fn scan_result_view(r: DeltaResult<ScanData>) -> Result<ScanDataView, Error> {
    match r {
        Ok(d) => Ok(scan_data_view(d)),
        Err(e) => Err(e),
    }
}

/// The state that a scan carries from batch to batch.
pub struct LogReplayScanner {
    pub partition_filter: Option<Expression>,
    pub data_skipping_filter: Option<DataSkippingFilter>,
    /// The keys of the file actions seen so far in the log. They serve to
    /// leave out the files that were removed, and the older copies of the
    /// files that were added more than once.
    pub seen: FileActionKeySet,
}

/// The mathematical value of a [`LogReplayScanner`].
pub struct ScannerView {
    pub partition_filter: Option<ExprView>,
    /// The skipping predicate of the data skipping filter, if there is one.
    pub skipping: Option<ExprView>,
    pub seen: Set<FileKey>,
}

impl View for LogReplayScanner {
    type V = ScannerView;

    open spec fn view(&self) -> ScannerView {
        ScannerView {
            partition_filter: match self.partition_filter {
                Some(f) => Some(f@),
                None => None,
            },
            skipping: match self.data_skipping_filter {
                Some(f) => Some(f.skipping_predicate@),
                None => None,
            },
            seen: self.seen@,
        }
    }
}

/// The scanner at the start of a scan with the given predicate.
pub open spec fn initial_scanner(predicate: Option<ExprView>) -> ScannerView {
    ScannerView {
        partition_filter: predicate,
        skipping: match predicate {
            Some(p) => skipping_predicate(p, false),
            None => None,
        },
        seen: Set::empty(),
    }
}

/// The selection vector of a batch after data skipping: without a filter
/// every row is selected.
pub open spec fn skipping_selection(skipping: Option<ExprView>, batch: BatchView) -> Seq<bool> {
    Seq::new(
        batch.num_rows,
        |i: int|
            match skipping {
                Some(s) => !is_skipped(batch, s, i),
                None => true,
            },
    )
}

pub open spec fn replay_config(
    scanner: ScannerView,
    schema: Seq<StructFieldView>,
    transform: Option<Seq<TransformExprView>>,
    is_log_batch: bool,
) -> ReplayConfig {
    ReplayConfig { schema, transform, filter: scanner.partition_filter, is_log_batch }
}

/// The state in which the visit of a batch starts: the keys seen so far, the
/// selection vector that data skipping leaves, and no transform expression.
pub open spec fn batch_start(scanner: ScannerView, batch: BatchView) -> BatchOutcome {
    BatchOutcome {
        seen: scanner.seen,
        selection: skipping_selection(scanner.skipping, batch),
        transforms: Seq::empty(),
        error: None,
    }
}

/// What processing one batch gives: the keys seen after it, and either the
/// scan data of the batch or the failure of the batch. The batch is visited
/// from the selection vector that data skipping leaves; then all its rows
/// are reshaped into scan rows.
pub open spec fn process_batch_spec(
    scanner: ScannerView,
    batch: BatchView,
    schema: Seq<StructFieldView>,
    transform: Option<Seq<TransformExprView>>,
    is_log_batch: bool,
) -> (Set<FileKey>, Result<ScanDataView, Error>) {
    let out = batch_outcome(
        replay_config(scanner, schema, transform, is_log_batch),
        batch_start(scanner, batch),
        batch,
    );
    (
        out.seen,
        match out.error {
            Some(e) => Err(e),
            None => match scan_rows_spec(batch) {
                Err(e) => Err(e),
                Ok(rows) => Ok((rows, out.selection, out.transforms)),
            },
        },
    )
}

/// Whether a result is handed on by the scan: a failure is, and so is scan
/// data in which some row is selected.
pub open spec fn is_emitted(r: Result<ScanDataView, Error>) -> bool {
    match r {
        Err(_) => true,
        Ok(d) => exists|i: int| 0 <= i < d.1.len() && d.1[i],
    }
}

/// What the replay of a log stream gives: the scanner after it, and the
/// results handed out, in order. An item that the reader failed on is handed
/// on as that failure. A batch is processed; its result is handed out unless
/// it is scan data without a selected row.
pub open spec fn replay_spec(
    scanner: ScannerView,
    items: Seq<Result<(BatchView, bool), Error>>,
    schema: Seq<StructFieldView>,
    transform: Option<Seq<TransformExprView>>,
) -> (ScannerView, Seq<Result<ScanDataView, Error>>)
    decreases items.len(),
{
    if items.len() == 0 {
        (scanner, Seq::empty())
    } else {
        let (before, emitted) = replay_spec(scanner, items.drop_last(), schema, transform);
        match items.last() {
            Err(e) => (before, emitted.push(Err(e))),
            Ok((batch, is_log_batch)) => {
                let (seen, result) = process_batch_spec(
                    before,
                    batch,
                    schema,
                    transform,
                    is_log_batch,
                );
                let after = ScannerView {
                    partition_filter: before.partition_filter,
                    skipping: before.skipping,
                    seen,
                };
                if is_emitted(result) {
                    (after, emitted.push(result))
                } else {
                    (after, emitted)
                }
            },
        }
    }
}

pub open spec fn scan_result_views(rs: Seq<DeltaResult<ScanData>>) -> Seq<
    Result<ScanDataView, Error>,
> {
    rs.map_values(|r: DeltaResult<ScanData>| scan_result_view(r))
}

pub open spec fn transform_option_view(transform: Option<&Transform>) -> Option<
    Seq<TransformExprView>,
> {
    match transform {
        Some(t) => Some(transform_view(t@)),
        None => None,
    }
}

pub open spec fn predicate_view(p: Option<(Expression, StructType)>) -> Option<ExprView> {
    match p {
        Some(given) => Some(given.0@),
        None => None,
    }
}

fn all_selected(n: usize) -> (r: Vec<bool>)
    ensures
        r@.len() == n,
        forall|i: int| 0 <= i < n ==> r@[i],
{
    let mut v: Vec<bool> = Vec::new();
    while v.len() < n
        invariant
            v@.len() <= n,
            forall|i: int| 0 <= i < v@.len() ==> v@[i],
        decreases n - v@.len(),
    {
        v.push(true);
    }
    v
}

fn any_selected(selection: &Vec<bool>) -> (r: bool)
    ensures
        r == exists|i: int| 0 <= i < selection@.len() && selection@[i],
{
    let mut i: usize = 0;
    while i < selection.len()
        invariant
            i <= selection.len(),
            forall|j: int| 0 <= j < i ==> !selection@[j],
        decreases selection.len() - i,
    {
        if selection[i] {
            return true;
        }
        i += 1;
    }
    false
}

impl LogReplayScanner {
    /// The scanner for a scan with the given predicate, which comes with the
    /// schema of the columns it refers to. The predicate serves as the
    /// partition filter and, where statistics say anything about it, as the
    /// source of the data skipping filter.
    pub fn new(physical_predicate: Option<(Expression, StructType)>) -> (r: LogReplayScanner)
        ensures
            r@ == initial_scanner(predicate_view(physical_predicate)),
    {
        let partition_filter: Option<Expression> = match &physical_predicate {
            Some(given) => Some(given.0.clone()),
            None => None,
        };
        LogReplayScanner {
            partition_filter,
            data_skipping_filter: DataSkippingFilter::new(physical_predicate),
            seen: FileActionKeySet::new(),
        }
    }

    /// Processes one batch of the log: applies data skipping, reconciles the
    /// file actions of the batch with those seen before, and reshapes the
    /// rows of the batch into scan rows.
    pub fn process_scan_batch(
        &mut self,
        actions: &ActionBatch,
        logical_schema: &StructType,
        transform: Option<&Transform>,
        is_log_batch: bool,
    ) -> (r: DeltaResult<ScanData>)
        ensures
            final(self)@.partition_filter == old(self)@.partition_filter,
            final(self)@.skipping == old(self)@.skipping,
            ({
                let out = process_batch_spec(
                    old(self)@,
                    actions@,
                    logical_schema@,
                    transform_option_view(transform),
                    is_log_batch,
                );
                &&& final(self)@.seen == out.0
                &&& scan_result_view(r) == out.1
            }),
            r matches Ok(data) ==> scan_data_fits(
                scan_data_view(data),
                skipping_selection(old(self)@.skipping, actions@),
                transform_option_view(transform),
            ),
    {
        proof {
            lemma_scan_data_fits(
                self@,
                actions@,
                logical_schema@,
                transform_option_view(transform),
                is_log_batch,
            );
        }
        // Data skipping comes first. The selection vector it leaves is
        // narrowed as the replay finds the rows that must be ignored.
        let selection_vector: Vec<bool> = match &self.data_skipping_filter {
            Some(filter) => filter.apply(actions)?,
            None => all_selected(actions.len()),
        };
        assert(selection_vector@ =~= skipping_selection(old(self)@.skipping, actions@));
        let mut visitor = AddRemoveDedupVisitor::new(
            &mut self.seen,
            selection_vector,
            logical_schema,
            transform,
            self.partition_filter.as_ref(),
            is_log_batch,
        );
        assert(visitor.transforms() =~= Seq::<Option<ExprView>>::empty());
        visitor.visit_rows_of(actions)?;
        let selection: Vec<bool> = visitor.selection_vector;
        let transforms: Vec<Option<Expression>> = visitor.row_transform_exprs;
        // Every row is reshaped, selected or not.
        let result = scan_rows(actions)?;
        Ok((result, selection, transforms))
    }
}

/// Replays a log stream into scan data.
///
/// The stream holds the batches of the log, each with the flag that tells
/// whether it comes from a commit or from a checkpoint. It must be ordered
/// newest first: of the actions for one file the first to arrive wins. Of
/// the rows of the scan data handed out, those that are selected must be
/// processed to complete the scan, and the others must be ignored. Scan data
/// in which no row is selected is not handed out at all; its list of
/// transform expressions, which then holds no expression, goes with it.
pub fn scan_action_iter(
    action_iter: Vec<DeltaResult<(ActionBatch, bool)>>,
    logical_schema: &StructType,
    transform: Option<&Transform>,
    physical_predicate: Option<(Expression, StructType)>,
) -> (r: Vec<DeltaResult<ScanData>>)
    ensures
        scan_result_views(r@) == replay_spec(
            initial_scanner(predicate_view(physical_predicate)),
            item_views(action_iter@),
            logical_schema@,
            transform_option_view(transform),
        ).1,
        forall|j: int|
            0 <= j < r@.len() && (#[trigger] r@[j]) is Ok ==> transforms_fit(
                scan_data_view(r@[j]->Ok_0),
                transform_option_view(transform),
            ),
{
    let ghost first = initial_scanner(predicate_view(physical_predicate));
    let ghost items = item_views(action_iter@);
    let ghost schema = logical_schema@;
    let ghost tv = transform_option_view(transform);
    let mut log_scanner = LogReplayScanner::new(physical_predicate);
    let mut results: Vec<DeltaResult<ScanData>> = Vec::new();
    let mut k: usize = 0;
    assert(items.take(0) =~= Seq::<Result<(BatchView, bool), Error>>::empty());
    while k < action_iter.len()
        invariant
            k <= action_iter.len(),
            items == item_views(action_iter@),
            schema == logical_schema@,
            tv == transform_option_view(transform),
            (log_scanner@, scan_result_views(results@)) == replay_spec(
                first,
                items.take(k as int),
                schema,
                tv,
            ),
        decreases action_iter.len() - k,
    {
        proof {
            assert(items.take(k + 1).drop_last() =~= items.take(k as int));
            assert(items.take(k + 1).last() == item_view(action_iter@[k as int]));
        }
        let ghost emitted = scan_result_views(results@);
        let ghost before = log_scanner@;
        let ghost step = replay_spec(first, items.take(k + 1), schema, tv);
        match &action_iter[k] {
            Ok(item) => {
                let ghost processed = process_batch_spec(before, item.0@, schema, tv, item.1);
                assert(items.take(k + 1).last() == Ok::<(BatchView, bool), Error>(
                    (item.0@, item.1),
                ));
                let result = log_scanner.process_scan_batch(
                    &item.0,
                    logical_schema,
                    transform,
                    item.1,
                );
                assert(scan_result_view(result) == processed.1);
                let keep: bool = match &result {
                    Ok(data) => any_selected(&data.1),
                    Err(_) => true,
                };
                proof {
                    if result is Ok {
                        let chosen = result->Ok_0.1@;
                        let selection = processed.1->Ok_0.1;
                        assert(selection == chosen);
                        if keep {
                            let i = choose|i: int| 0 <= i < chosen.len() && chosen[i];
                            assert(0 <= i < selection.len() && selection[i]);
                        } else {
                            assert forall|i: int| 0 <= i < selection.len() implies !selection[i] by {
                                assert(!chosen[i]);
                            }
                        }
                    }
                }
                assert(keep == is_emitted(processed.1));
                assert(log_scanner@ == step.0);
                if keep {
                    results.push(result);
                    assert(scan_result_views(results@) =~= emitted.push(scan_result_view(result)));
                }
                assert(scan_result_views(results@) == step.1);
            },
            Err(e) => {
                assert(items.take(k + 1).last() == Err::<(BatchView, bool), Error>(*e));
                results.push(Err(*e));
                assert(scan_result_views(results@) =~= emitted.push(Err(*e)));
                assert(log_scanner@ == step.0);
                assert(scan_result_views(results@) == step.1);
            },
        }
        k += 1;
    }
    assert(items.take(k as int) =~= items);
    proof {
        let replay = Replay { first, items, schema, transform: tv };
        assert forall|j: int| 0 <= j < results@.len() && (#[trigger] results@[j]) is Ok implies transforms_fit(
            scan_data_view(results@[j]->Ok_0),
            tv,
        ) by {
            assert(scan_result_views(results@)[j] == scan_result_view(results@[j]));
            lemma_emitted_fits(replay, j);
        }
    }
    results
}

/// The file action that the visit of row `i` records as seen, if it
/// records one: the file action of the row, unless it is an add that the
/// partition filter rules out or whose partition values cannot be parsed.
pub open spec fn recorded_action(cfg: ReplayConfig, cols: Seq<ColumnView>, i: int) -> Option<
    (FileKey, bool),
> {
    match row_file_action(cfg, cols, i) {
        Ok(Some((key, is_add))) => if cfg.transform is Some && is_add {
            match row_partition_values(cfg, cfg.transform->Some_0, cols, i) {
                Ok(parsed) => if is_pruned_spec(cfg.filter, parsed) {
                    None
                } else {
                    Some((key, is_add))
                },
                Err(_) => None,
            }
        } else {
            Some((key, is_add))
        },
        _ => None,
    }
}

/// The visit of a row adds to the keys seen the key of the action it
/// records, and nothing else. A row stays selected only if it records an
/// add whose key had not been seen, and it has a transform expression
/// exactly if it stays selected and a transform is requested.
pub proof fn lemma_row_records(cfg: ReplayConfig, seen: Set<FileKey>, cols: Seq<ColumnView>, i: int)
    ensures
        row_spec(cfg, seen, cols, i).seen == match recorded_action(cfg, cols, i) {
            Some(a) => seen.insert(a.0),
            None => seen,
        },
        row_spec(cfg, seen, cols, i).result matches Ok(kept) ==> {
            &&& kept.0 ==> (recorded_action(cfg, cols, i) matches Some(a) && a.1 && !seen.contains(
                a.0,
            ))
            &&& kept.1 is Some <==> kept.0 && cfg.transform is Some
        },
{
}

/// The keys seen only grow while a batch is visited.
pub proof fn lemma_visit_seen_grows(
    cfg: ReplayConfig,
    start: BatchOutcome,
    cols: Seq<ColumnView>,
    n: int,
    m: int,
)
    requires
        n <= m,
    ensures
        visit_spec(cfg, start, cols, n).seen.subset_of(visit_spec(cfg, start, cols, m).seen),
    decreases m - n,
{
    if n < m {
        lemma_visit_seen_grows(cfg, start, cols, n, m - 1);
        if m > 0 {
            lemma_row_records(cfg, visit_spec(cfg, start, cols, m - 1).seen, cols, m - 1);
        }
    }
}

/// The visit of a batch only narrows the selection vector: a row that was
/// not selected stays so. The rows that have not been visited yet are as
/// they were.
pub proof fn lemma_selection_only_narrows(
    cfg: ReplayConfig,
    start: BatchOutcome,
    cols: Seq<ColumnView>,
    n: int,
)
    requires
        0 <= n <= start.selection.len(),
    ensures
        visit_spec(cfg, start, cols, n).selection.len() == start.selection.len(),
        forall|i: int|
            0 <= i < start.selection.len() && #[trigger] visit_spec(cfg, start, cols, n).selection[i]
                ==> start.selection[i],
        forall|i: int|
            n <= i < start.selection.len() ==> #[trigger] visit_spec(cfg, start, cols, n).selection[i]
                == start.selection[i],
    decreases n,
{
    if n > 0 {
        lemma_selection_only_narrows(cfg, start, cols, n - 1);
    }
}

/// A row that is selected after the visit of a batch was selected before,
/// and it holds an add that is recorded and whose key had not been seen when
/// the row was visited.
pub proof fn lemma_kept_row(
    cfg: ReplayConfig,
    start: BatchOutcome,
    cols: Seq<ColumnView>,
    n: int,
    i: int,
)
    requires
        0 <= i < n <= start.selection.len(),
        visit_spec(cfg, start, cols, n).error is None,
        visit_spec(cfg, start, cols, n).selection[i],
    ensures
        visit_spec(cfg, start, cols, i).error is None,
        visit_spec(cfg, start, cols, i).selection[i],
        recorded_action(cfg, cols, i) matches Some(a) && a.1 && !visit_spec(
            cfg,
            start,
            cols,
            i,
        ).seen.contains(a.0),
    decreases n,
{
    let prev = visit_spec(cfg, start, cols, n - 1);
    lemma_selection_only_narrows(cfg, start, cols, n - 1);
    assert(prev.error is None);
    if n == i + 1 {
        assert(prev.selection[i]);
        lemma_row_records(cfg, prev.seen, cols, i);
    } else {
        assert(prev.selection[i]);
        lemma_kept_row(cfg, start, cols, n - 1, i);
    }
}

/// The transform expressions that the visit of a batch gathers, when it
/// starts without any. If no transform is requested, there are none. If one
/// is requested and the visit succeeds, a row is selected exactly if there
/// is an expression at its index.
pub proof fn lemma_transforms_match_selection(
    cfg: ReplayConfig,
    start: BatchOutcome,
    cols: Seq<ColumnView>,
    n: int,
)
    requires
        0 <= n <= start.selection.len(),
        start.transforms.len() == 0,
    ensures
        cfg.transform is None ==> visit_spec(cfg, start, cols, n).transforms.len() == 0,
        visit_spec(cfg, start, cols, n).transforms.len() <= n,
        cfg.transform is Some && visit_spec(cfg, start, cols, n).error is None ==> forall|i: int|
            0 <= i < n ==> (#[trigger] visit_spec(cfg, start, cols, n).selection[i] <==> i
                < visit_spec(cfg, start, cols, n).transforms.len() && visit_spec(
                cfg,
                start,
                cols,
                n,
            ).transforms[i] is Some),
    decreases n,
{
    if n > 0 {
        let prev = visit_spec(cfg, start, cols, n - 1);
        let out = visit_spec(cfg, start, cols, n);
        lemma_transforms_match_selection(cfg, start, cols, n - 1);
        lemma_selection_only_narrows(cfg, start, cols, n - 1);
        lemma_row_records(cfg, prev.seen, cols, n - 1);
        if cfg.transform is Some && out.error is None {
            assert(prev.error is None);
            assert forall|i: int| 0 <= i < n implies (#[trigger] out.selection[i] <==> i
                < out.transforms.len() && out.transforms[i] is Some) by {
                if prev.selection[n - 1] {
                    let row = row_spec(cfg, prev.seen, cols, n - 1);
                    let kept = row.result->Ok_0;
                    if i < n - 1 {
                        assert(out.selection[i] == prev.selection[i]);
                        if kept.1 is Some {
                            assert(out.transforms[i] == if i < prev.transforms.len() {
                                prev.transforms[i]
                            } else {
                                None
                            });
                        }
                    }
                } else {
                    if i < n - 1 {
                        assert(out.selection[i] == prev.selection[i]);
                    }
                }
            }
        }
    }
}

/// The shape of the scan data of a batch with respect to the selection
/// vector that data skipping has left and to the transform.
pub open spec fn scan_data_fits(
    d: ScanDataView,
    skipped: Seq<bool>,
    transform: Option<Seq<TransformExprView>>,
) -> bool {
    &&& d.1.len() == skipped.len()
    &&& forall|i: int| 0 <= i < d.1.len() && #[trigger] d.1[i] ==> skipped[i]
    &&& transform is None ==> d.2.len() == 0
    &&& transform is Some ==> forall|i: int|
        0 <= i < d.1.len() ==> (#[trigger] d.1[i] <==> i < d.2.len() && d.2[i] is Some)
}

/// The scan data of a batch never selects a row that data skipping has
/// deselected. Its list of transform expressions is empty if no transform is
/// requested; if one is, the list holds an expression at the index of every
/// selected row and nowhere else.
pub proof fn lemma_scan_data_fits(
    scanner: ScannerView,
    batch: BatchView,
    schema: Seq<StructFieldView>,
    transform: Option<Seq<TransformExprView>>,
    is_log_batch: bool,
)
    ensures
        process_batch_spec(scanner, batch, schema, transform, is_log_batch).1 matches Ok(d)
            ==> scan_data_fits(d, skipping_selection(scanner.skipping, batch), transform),
{
    let cfg = replay_config(scanner, schema, transform, is_log_batch);
    let start = batch_start(scanner, batch);
    if batch.select(selected_names(is_log_batch)) is Ok {
        let cols = batch.select(selected_names(is_log_batch))->Ok_0;
        lemma_selection_only_narrows(cfg, start, cols, batch.num_rows as int);
        lemma_transforms_match_selection(cfg, start, cols, batch.num_rows as int);
    }
}

/// A log stream with what it is replayed with.
pub struct Replay {
    /// The scanner at the start of the scan.
    pub first: ScannerView,
    /// The items of the stream, newest first.
    pub items: Seq<Result<(BatchView, bool), Error>>,
    /// The fields of the logical schema.
    pub schema: Seq<StructFieldView>,
    /// The transform, if one is requested.
    pub transform: Option<Seq<TransformExprView>>,
}

impl Replay {
    /// The scanner when the items before item `b` have been replayed.
    pub open spec fn scanner_before(self, b: int) -> ScannerView {
        replay_spec(self.first, self.items.take(b), self.schema, self.transform).0
    }

    /// Whether item `b` is a batch that has the columns a visitor reads.
    pub open spec fn is_visited(self, b: int) -> bool {
        &&& 0 <= b < self.items.len()
        &&& self.items[b] matches Ok(item)
        &&& item.0.select(selected_names(item.1)) is Ok
    }

    pub open spec fn batch(self, b: int) -> BatchView {
        self.items[b]->Ok_0.0
    }

    pub open spec fn config(self, b: int) -> ReplayConfig {
        replay_config(
            self.scanner_before(b),
            self.schema,
            self.transform,
            self.items[b]->Ok_0.1,
        )
    }

    pub open spec fn columns(self, b: int) -> Seq<ColumnView> {
        self.batch(b).select(selected_names(self.items[b]->Ok_0.1))->Ok_0
    }

    /// The state of the visit of batch `b` when its first `i` rows have
    /// been visited.
    pub open spec fn state(self, b: int, i: int) -> BatchOutcome {
        visit_spec(
            self.config(b),
            batch_start(self.scanner_before(b), self.batch(b)),
            self.columns(b),
            i,
        )
    }

    /// The file action that is visited and recorded as seen at row `i` of
    /// item `b`, if one is: the row is reached by the visit, data skipping
    /// has left it selected, and it records a file action.
    pub open spec fn visited(self, b: int, i: int) -> Option<(FileKey, bool)> {
        if self.is_visited(b) && 0 <= i < self.batch(b).num_rows && self.state(b, i).error is None
            && self.state(b, i).selection[i] {
            recorded_action(self.config(b), self.columns(b), i)
        } else {
            None
        }
    }

    /// Whether row `i` of item `b` is selected when the batch has been
    /// visited: whether it is a surviving add.
    pub open spec fn kept(self, b: int, i: int) -> bool {
        &&& self.is_visited(b)
        &&& 0 <= i < self.batch(b).num_rows
        &&& self.state(b, self.batch(b).num_rows as int).error is None
        &&& self.state(b, self.batch(b).num_rows as int).selection[i]
    }

    /// What processing item `b` gives, if it is a batch.
    pub open spec fn output(self, b: int) -> Result<ScanDataView, Error> {
        process_batch_spec(
            self.scanner_before(b),
            self.batch(b),
            self.schema,
            self.transform,
            self.items[b]->Ok_0.1,
        ).1
    }

    /// What the replay hands out, in order.
    pub open spec fn emitted(self) -> Seq<Result<ScanDataView, Error>> {
        replay_spec(self.first, self.items, self.schema, self.transform).1
    }
}

/// Whether position `(b1, i1)` of a stream comes before position `(b2, i2)`.
pub open spec fn comes_before(b1: int, i1: int, b2: int, i2: int) -> bool {
    b1 < b2 || (b1 == b2 && i1 < i2)
}

/// Replaying one more item: the scanner after item `b` is the scanner
/// before it with the keys that the batch adds.
proof fn lemma_scanner_step(r: Replay, b: int)
    requires
        0 <= b < r.items.len(),
    ensures
        r.scanner_before(b + 1).partition_filter == r.scanner_before(b).partition_filter,
        r.scanner_before(b + 1).skipping == r.scanner_before(b).skipping,
        r.items[b] is Err ==> r.scanner_before(b + 1) == r.scanner_before(b),
        r.items[b] is Ok ==> r.scanner_before(b + 1).seen == process_batch_spec(
            r.scanner_before(b),
            r.batch(b),
            r.schema,
            r.transform,
            r.items[b]->Ok_0.1,
        ).0,
        r.is_visited(b) ==> r.scanner_before(b + 1).seen == r.state(
            b,
            r.batch(b).num_rows as int,
        ).seen,
        r.scanner_before(b).seen.subset_of(r.scanner_before(b + 1).seen),
{
    assert(r.items.take(b + 1).drop_last() =~= r.items.take(b));
    assert(r.items.take(b + 1).last() == r.items[b]);
    if r.is_visited(b) {
        lemma_visit_seen_grows(
            r.config(b),
            batch_start(r.scanner_before(b), r.batch(b)),
            r.columns(b),
            0,
            r.batch(b).num_rows as int,
        );
    }
}

/// The keys seen only grow while a stream is replayed.
proof fn lemma_scanner_seen_grows(r: Replay, b1: int, b2: int)
    requires
        0 <= b1 <= b2 <= r.items.len(),
    ensures
        r.scanner_before(b1).seen.subset_of(r.scanner_before(b2).seen),
    decreases b2 - b1,
{
    if b1 < b2 {
        lemma_scanner_seen_grows(r, b1, b2 - 1);
        lemma_scanner_step(r, b2 - 1);
    }
}

/// The first action that is visited for a file decides: a row that
/// survives the replay holds an add, and no action that was visited before
/// it, anywhere in the stream, has the key of its file.
pub proof fn lemma_first_action_wins(r: Replay, b1: int, i1: int, b2: int, i2: int)
    requires
        comes_before(b1, i1, b2, i2),
        r.visited(b1, i1) is Some,
        r.kept(b2, i2),
    ensures
        r.visited(b2, i2) matches Some(survivor) && survivor.1 && survivor.0 != r.visited(
            b1,
            i1,
        )->Some_0.0,
{
    let key = r.visited(b1, i1)->Some_0.0;
    let cfg1 = r.config(b1);
    let start1 = batch_start(r.scanner_before(b1), r.batch(b1));
    let cols1 = r.columns(b1);
    let cfg2 = r.config(b2);
    let start2 = batch_start(r.scanner_before(b2), r.batch(b2));
    let cols2 = r.columns(b2);
    // The earlier action is among the keys seen once its row is visited.
    lemma_row_records(cfg1, r.state(b1, i1).seen, cols1, i1);
    assert(r.state(b1, i1 + 1).seen.contains(key));
    // The later row holds an add whose key had not been seen.
    lemma_kept_row(cfg2, start2, cols2, r.batch(b2).num_rows as int, i2);
    if b1 == b2 {
        lemma_visit_seen_grows(cfg1, start1, cols1, i1 + 1, i2);
    } else {
        lemma_visit_seen_grows(cfg1, start1, cols1, i1 + 1, r.batch(b1).num_rows as int);
        lemma_scanner_step(r, b1);
        lemma_scanner_seen_grows(r, b1 + 1, b2);
        lemma_visit_seen_grows(cfg2, start2, cols2, 0, i2);
    }
    assert(r.state(b2, i2).seen.contains(key));
}

/// If the first action that is visited for a file is a remove, no add of
/// that file survives the replay.
pub proof fn lemma_removed_file_stays_out(
    r: Replay,
    key: FileKey,
    b1: int,
    i1: int,
    b2: int,
    i2: int,
)
    requires
        r.visited(b1, i1) == Some((key, false)),
        forall|b: int, i: int|
            comes_before(b, i, b1, i1) ==> !(#[trigger] r.visited(b, i) matches Some(a) && a.0
                == key),
        r.kept(b2, i2),
    ensures
        r.visited(b2, i2) matches Some(survivor) && survivor.0 != key,
{
    lemma_kept_row(
        r.config(b2),
        batch_start(r.scanner_before(b2), r.batch(b2)),
        r.columns(b2),
        r.batch(b2).num_rows as int,
        i2,
    );
    assert(r.visited(b2, i2) is Some && r.visited(b2, i2)->Some_0.1);
    if comes_before(b1, i1, b2, i2) {
        lemma_first_action_wins(r, b1, i1, b2, i2);
    }
}

/// The selection vector of the scan data of a batch marks the rows that
/// survive the replay.
pub proof fn lemma_output_selects_kept(r: Replay, b: int)
    requires
        0 <= b < r.items.len(),
        r.items[b] is Ok,
    ensures
        r.output(b) matches Ok(d) ==> (d.1.len() == r.batch(b).num_rows && forall|i: int|
            0 <= i < d.1.len() ==> (#[trigger] d.1[i] <==> r.kept(b, i))),
{
    if r.is_visited(b) {
        lemma_selection_only_narrows(
            r.config(b),
            batch_start(r.scanner_before(b), r.batch(b)),
            r.columns(b),
            r.batch(b).num_rows as int,
        );
    }
}

/// Whatever scan data the replay hands out is the scan data of one of the
/// batches of the stream.
pub proof fn lemma_emitted_is_output(r: Replay, j: int)
    requires
        0 <= j < r.emitted().len(),
        r.emitted()[j] is Ok,
    ensures
        exists|b: int| 0 <= b < r.items.len() && r.items[b] is Ok && #[trigger] r.output(b)
            == r.emitted()[j],
    decreases r.items.len(),
{
    let n = r.items.len() as int;
    assert(n > 0);
    let shorter = Replay { first: r.first, items: r.items.drop_last(), schema: r.schema, transform: r.transform };
    assert(r.items.take(n - 1) =~= r.items.drop_last());
    assert(forall|b: int| 0 <= b < n - 1 ==> shorter.items.take(b) =~= r.items.take(b));
    if j < shorter.emitted().len() {
        assert(r.emitted()[j] == shorter.emitted()[j]);
        lemma_emitted_is_output(shorter, j);
        let b = choose|b: int|
            0 <= b < shorter.items.len() && shorter.items[b] is Ok && #[trigger] shorter.output(b)
                == shorter.emitted()[j];
        assert(shorter.items.take(b) =~= r.items.take(b));
        assert(r.output(b) == r.emitted()[j]);
    } else {
        assert(r.items.take(n - 1) =~= r.items.drop_last());
        assert(r.output(n - 1) == r.emitted()[j]);
    }
}

/// The filters of a scanner stay as they are while a stream is replayed.
pub proof fn lemma_scanner_filters_stay(r: Replay, b: int)
    requires
        0 <= b <= r.items.len(),
    ensures
        r.scanner_before(b).partition_filter == r.first.partition_filter,
        r.scanner_before(b).skipping == r.first.skipping,
    decreases b,
{
    if b > 0 {
        lemma_scanner_filters_stay(r, b - 1);
        lemma_scanner_step(r, b - 1);
    } else {
        assert(r.items.take(0) =~= Seq::<Result<(BatchView, bool), Error>>::empty());
    }
}

/// Whether the list of transform expressions of scan data goes with its
/// selection vector: it is empty if no transform is requested; if one is,
/// it holds an expression at the index of every selected row and nowhere
/// else.
pub open spec fn transforms_fit(d: ScanDataView, transform: Option<Seq<TransformExprView>>) -> bool {
    &&& transform is None ==> d.2.len() == 0
    &&& transform is Some ==> forall|i: int|
        0 <= i < d.1.len() ==> (#[trigger] d.1[i] <==> i < d.2.len() && d.2[i] is Some)
}

/// Whatever scan data the replay hands out is the scan data of one of the
/// batches of the stream: it never selects a row that data skipping has
/// deselected in that batch, and its transform expressions go with its
/// selection vector.
pub proof fn lemma_emitted_fits(r: Replay, j: int)
    requires
        0 <= j < r.emitted().len(),
        r.emitted()[j] is Ok,
    ensures
        exists|b: int|
            0 <= b < r.items.len() && r.items[b] is Ok && #[trigger] r.output(b) == r.emitted()[j]
                && scan_data_fits(
                r.emitted()[j]->Ok_0,
                skipping_selection(r.first.skipping, r.batch(b)),
                r.transform,
            ),
        transforms_fit(r.emitted()[j]->Ok_0, r.transform),
{
    lemma_emitted_is_output(r, j);
    let b = choose|b: int|
        0 <= b < r.items.len() && r.items[b] is Ok && #[trigger] r.output(b) == r.emitted()[j];
    lemma_scanner_filters_stay(r, b);
    lemma_scan_data_fits(
        r.scanner_before(b),
        r.batch(b),
        r.schema,
        r.transform,
        r.items[b]->Ok_0.1,
    );
}

} // verus!
