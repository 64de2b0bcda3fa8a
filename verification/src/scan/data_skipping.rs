//! Pruning of files by their statistics.
//!
//! A data file may record, for each of its columns, the least and the
//! greatest value and the number of nulls, and for the file the number of
//! records. A predicate over the rows of a file is turned into a predicate
//! over these statistics that is false only if no row of the file can satisfy
//! the predicate itself. A file whose statistics make the derived predicate
//! false is skipped.
//!
//! The statistics of the add in a row are read from the columns below
//! `add.stats_parsed`: `numRecords`, and `minValues`, `maxValues` and
//! `nullCount` with one column for each column of the file. A statistic that
//! is absent or null decides nothing, so a file without statistics is kept.

use crate::engine_data::{ActionBatch, BatchView, Column, ColumnView};
use crate::error::DeltaResult;
use crate::expressions::{
    expr_view, expr_views, BinaryOperator, ExprView, Expression, Scalar, ScalarView, UnaryOperator,
    VariadicOperator,
};
use crate::predicates::{
    all_of, any_of, combine, compare, eval, eval_sql_where, is_not_null,
    lemma_scalar_order_converse, lemma_scalar_order_transitive, outcomes, scalar_order, Bindings,
    ColumnResolver, DefaultPredicateEvaluator,
};
use crate::schema::{ColumnName, StructType};
use vstd::prelude::*;

verus! {

/// The column that holds the statistic `kind` of the column `column`.
pub open spec fn stat_name(kind: Seq<char>, column: Seq<Seq<char>>) -> Seq<Seq<char>> {
    seq![kind] + column
}

pub open spec fn min_of(column: Seq<Seq<char>>) -> ExprView {
    ExprView::Column(stat_name("minValues"@, column))
}

pub open spec fn max_of(column: Seq<Seq<char>>) -> ExprView {
    ExprView::Column(stat_name("maxValues"@, column))
}

pub open spec fn null_count_of(column: Seq<Seq<char>>) -> ExprView {
    ExprView::Column(stat_name("nullCount"@, column))
}

pub open spec fn num_records() -> ExprView {
    ExprView::Column(seq!["numRecords"@])
}

pub open spec fn binary(op: BinaryOperator, a: ExprView, b: ExprView) -> ExprView {
    ExprView::Binary(op, Box::new(a), Box::new(b))
}

/// The comparison that holds exactly where `op` does not.
pub open spec fn inverse(op: BinaryOperator) -> BinaryOperator {
    match op {
        BinaryOperator::LessThan => BinaryOperator::GreaterThanOrEqual,
        BinaryOperator::LessThanOrEqual => BinaryOperator::GreaterThan,
        BinaryOperator::GreaterThan => BinaryOperator::LessThanOrEqual,
        BinaryOperator::GreaterThanOrEqual => BinaryOperator::LessThan,
        BinaryOperator::Equal => BinaryOperator::NotEqual,
        BinaryOperator::NotEqual => BinaryOperator::Equal,
    }
}

/// The comparison that holds of `(b, a)` exactly where `op` holds of `(a, b)`.
pub open spec fn converse(op: BinaryOperator) -> BinaryOperator {
    match op {
        BinaryOperator::LessThan => BinaryOperator::GreaterThan,
        BinaryOperator::LessThanOrEqual => BinaryOperator::GreaterThanOrEqual,
        BinaryOperator::GreaterThan => BinaryOperator::LessThan,
        BinaryOperator::GreaterThanOrEqual => BinaryOperator::LessThanOrEqual,
        BinaryOperator::Equal => BinaryOperator::Equal,
        BinaryOperator::NotEqual => BinaryOperator::NotEqual,
    }
}

pub open spec fn dual(op: VariadicOperator) -> VariadicOperator {
    match op {
        VariadicOperator::And => VariadicOperator::Or,
        VariadicOperator::Or => VariadicOperator::And,
    }
}

/// What the statistics of a file must satisfy for some row of the file to
/// satisfy `column op literal`: a value is less than the literal only if the
/// least value is, it is greater only if the greatest value is, it is equal
/// only if the literal lies between the two, and it differs unless both are
/// the literal.
pub open spec fn skipping_comparison(op: BinaryOperator, column: Seq<Seq<char>>, literal: ScalarView)
    -> ExprView {
    let l = ExprView::Literal(literal);
    match op {
        BinaryOperator::LessThan => binary(op, min_of(column), l),
        BinaryOperator::LessThanOrEqual => binary(op, min_of(column), l),
        BinaryOperator::GreaterThan => binary(op, max_of(column), l),
        BinaryOperator::GreaterThanOrEqual => binary(op, max_of(column), l),
        BinaryOperator::Equal => ExprView::Variadic(
            VariadicOperator::And,
            seq![
                binary(BinaryOperator::LessThanOrEqual, min_of(column), l),
                binary(BinaryOperator::GreaterThanOrEqual, max_of(column), l),
            ],
        ),
        BinaryOperator::NotEqual => ExprView::Variadic(
            VariadicOperator::Or,
            seq![
                binary(BinaryOperator::NotEqual, min_of(column), l),
                binary(BinaryOperator::NotEqual, max_of(column), l),
            ],
        ),
    }
}

/// What the statistics must satisfy for some row to have a null in the
/// column (or, if `inverted`, a value): the file has nulls in the column
/// (or, fewer nulls than records).
pub open spec fn skipping_null_check(column: Seq<Seq<char>>, inverted: bool) -> ExprView {
    if inverted {
        binary(BinaryOperator::NotEqual, null_count_of(column), num_records())
    } else {
        binary(
            BinaryOperator::GreaterThan,
            null_count_of(column),
            ExprView::Literal(ScalarView::Long(0)),
        )
    }
}

/// Those of `parts` that are present, in order.
pub open spec fn present(parts: Seq<Option<ExprView>>) -> Seq<ExprView>
    decreases parts.len(),
{
    if parts.len() == 0 {
        Seq::empty()
    } else {
        match parts.last() {
            Some(e) => present(parts.drop_last()).push(e),
            None => present(parts.drop_last()),
        }
    }
}

pub open spec fn all_present(parts: Seq<Option<ExprView>>) -> bool {
    forall|i: int| 0 <= i < parts.len() ==> (#[trigger] parts[i]) is Some
}

/// The skipping predicates of the expressions `es`, in order.
pub open spec fn skipping_parts(es: Seq<ExprView>, inverted: bool) -> Seq<Option<ExprView>>
    decreases es, 0nat,
{
    Seq::new(
        es.len(),
        |i: int|
            if 0 <= i < es.len() {
                skipping_predicate(es[i], inverted)
            } else {
                None
            },
    )
}

/// The predicate over the statistics of a file that is false only if no row
/// of the file satisfies `e` (or, if `inverted`, only if no row satisfies the
/// negation of `e`). `None` where the statistics say nothing about `e`.
///
/// A negation is pushed down to the comparisons. Of a conjunction the parts
/// that the statistics say nothing about are left out; a disjunction with
/// such a part has no skipping predicate.
pub open spec fn skipping_predicate(e: ExprView, inverted: bool) -> Option<ExprView>
    decreases e, 1nat,
{
    match e {
        ExprView::Unary(UnaryOperator::Not, a) => skipping_predicate(*a, !inverted),
        ExprView::Unary(UnaryOperator::IsNull, a) => match *a {
            ExprView::Column(c) => Some(skipping_null_check(c, inverted)),
            _ => None,
        },
        ExprView::Binary(op, a, b) => match (*a, *b) {
            (ExprView::Column(c), ExprView::Literal(l)) => Some(
                skipping_comparison(
                    if inverted {
                        inverse(op)
                    } else {
                        op
                    },
                    c,
                    l,
                ),
            ),
            (ExprView::Literal(l), ExprView::Column(c)) => Some(
                skipping_comparison(
                    if inverted {
                        inverse(converse(op))
                    } else {
                        converse(op)
                    },
                    c,
                    l,
                ),
            ),
            _ => None,
        },
        ExprView::Variadic(op, es) => {
            let parts = skipping_parts(es, inverted);
            let over = if inverted {
                dual(op)
            } else {
                op
            };
            match over {
                VariadicOperator::And => Some(ExprView::Variadic(over, present(parts))),
                VariadicOperator::Or => if all_present(parts) {
                    Some(ExprView::Variadic(over, present(parts)))
                } else {
                    None
                },
            }
        },
        _ => None,
    }
}

/// The scalar in row `i` of a column of statistics. A null is no value, and
/// a map is no statistic.
pub open spec fn cell_scalar(c: ColumnView, i: int) -> Option<ScalarView> {
    match c {
        ColumnView::Str(v) => match v[i] {
            Some(s) => Some(ScalarView::String(s)),
            None => None,
        },
        ColumnView::Int(v) => match v[i] {
            Some(x) => Some(ScalarView::Integer(x)),
            None => None,
        },
        ColumnView::Long(v) => match v[i] {
            Some(x) => Some(ScalarView::Long(x)),
            None => None,
        },
        ColumnView::StrMap(_) => None,
    }
}

/// The column of a batch that holds the statistic called `name`.
pub open spec fn stats_path(name: Seq<Seq<char>>) -> Seq<Seq<char>> {
    seq!["add"@, "stats_parsed"@] + name
}

/// The statistics of the add in row `i` of a batch: each statistic that the
/// batch has a value for, with that value.
pub open spec fn stats_bindings(batch: BatchView, i: int) -> Bindings {
    Map::new(
        |name: Seq<Seq<char>>|
            batch.has_column(stats_path(name)) && cell_scalar(batch.column(stats_path(name)), i)
                is Some,
        |name: Seq<Seq<char>>| cell_scalar(batch.column(stats_path(name)), i)->Some_0,
    )
}

/// Whether row `i` of a batch holds an add: the batch has the column
/// `add.path`, and it holds a string in the row.
pub open spec fn is_add_row(batch: BatchView, i: int) -> bool {
    let name = seq!["add"@, "path"@];
    batch.has_column(name) && batch.column(name).str_at(i) matches Ok(Some(_))
}

/// Whether the statistics of row `i` show that no row of the file satisfies
/// the predicate whose skipping predicate is `skipping`. Only an add can be
/// skipped.
pub open spec fn is_skipped(batch: BatchView, skipping: ExprView, i: int) -> bool {
    is_add_row(batch, i) && eval(stats_bindings(batch, i), skipping) == Some(false)
}

/// Resolves the statistics of the add in one row of a batch.
pub struct StatsResolver<'a> {
    batch: &'a ActionBatch,
    row: usize,
}

impl<'a> StatsResolver<'a> {
    #[verifier::type_invariant]
    spec fn row_in_batch(self) -> bool {
        self.row < self.batch@.num_rows
    }

    pub closed spec fn batch(&self) -> BatchView {
        self.batch@
    }

    pub closed spec fn row(&self) -> int {
        self.row as int
    }

    pub fn new(batch: &'a ActionBatch, row: usize) -> (r: StatsResolver<'a>)
        requires
            row < batch@.num_rows,
        ensures
            r.batch() == batch@,
            r.row() == row,
    {
        StatsResolver { batch, row }
    }
}

fn scalar_at(column: &Column, i: usize) -> (r: Option<Scalar>)
    requires
        i < column@.len(),
    ensures
        match cell_scalar(column@, i as int) {
            Some(v) => r matches Some(s) && s@ == v,
            None => r is None,
        },
{
    match column {
        Column::Str(v) => {
            assert(v.deep_view()[i as int] == v[i as int].deep_view());
            match &v[i] {
                Some(s) => Some(Scalar::String(s.clone())),
                None => None,
            }
        },
        Column::Int(v) => {
            assert(v.deep_view()[i as int] == v[i as int].deep_view());
            match v[i] {
                Some(x) => Some(Scalar::Integer(x)),
                None => None,
            }
        },
        Column::Long(v) => {
            assert(v.deep_view()[i as int] == v[i as int].deep_view());
            match v[i] {
                Some(x) => Some(Scalar::Long(x)),
                None => None,
            }
        },
        Column::StrMap(_) => None,
    }
}

impl<'a> ColumnResolver for StatsResolver<'a> {
    open spec fn bindings(&self) -> Bindings {
        stats_bindings(self.batch(), self.row())
    }

    fn resolve_column(&self, name: &ColumnName) -> (r: Option<Scalar>) {
        proof {
            use_type_invariant(self);
        }
        let path = ColumnName::of2("add", "stats_parsed").join(name);
        assert(path@ =~= stats_path(name@));
        match self.batch.column(&path) {
            Some(column) => scalar_at(column, self.row),
            None => None,
        }
    }
}

fn stat_column(kind: &str, column: &ColumnName) -> (r: Expression)
    ensures
        r@ == ExprView::Column(stat_name(kind@, column@)),
{
    let name = ColumnName::of1(kind).join(column);
    assert(name@ =~= stat_name(kind@, column@));
    Expression::Column(name)
}

fn inverse_of(op: BinaryOperator) -> (r: BinaryOperator)
    ensures
        r == inverse(op),
{
    match op {
        BinaryOperator::LessThan => BinaryOperator::GreaterThanOrEqual,
        BinaryOperator::LessThanOrEqual => BinaryOperator::GreaterThan,
        BinaryOperator::GreaterThan => BinaryOperator::LessThanOrEqual,
        BinaryOperator::GreaterThanOrEqual => BinaryOperator::LessThan,
        BinaryOperator::Equal => BinaryOperator::NotEqual,
        BinaryOperator::NotEqual => BinaryOperator::Equal,
    }
}

fn converse_of(op: BinaryOperator) -> (r: BinaryOperator)
    ensures
        r == converse(op),
{
    match op {
        BinaryOperator::LessThan => BinaryOperator::GreaterThan,
        BinaryOperator::LessThanOrEqual => BinaryOperator::GreaterThanOrEqual,
        BinaryOperator::GreaterThan => BinaryOperator::LessThan,
        BinaryOperator::GreaterThanOrEqual => BinaryOperator::LessThanOrEqual,
        BinaryOperator::Equal => BinaryOperator::Equal,
        BinaryOperator::NotEqual => BinaryOperator::NotEqual,
    }
}

fn compare_stat(op: BinaryOperator, kind: &str, column: &ColumnName, literal: &Scalar) -> (r:
    Expression)
    ensures
        r@ == binary(
            op,
            ExprView::Column(stat_name(kind@, column@)),
            ExprView::Literal(literal@),
        ),
{
    proof {
        reveal_with_fuel(expr_view, 3);
    }
    Expression::Binary(
        op,
        Box::new(stat_column(kind, column)),
        Box::new(Expression::Literal(literal.clone())),
    )
}

fn both(op: VariadicOperator, a: Expression, b: Expression) -> (r: Expression)
    ensures
        r@ == ExprView::Variadic(op, seq![a@, b@]),
{
    let mut parts: Vec<Expression> = Vec::new();
    parts.push(a);
    parts.push(b);
    let r = Expression::Variadic(op, parts);
    assert(r@->Variadic_1 =~= seq![a@, b@]);
    r
}

fn comparison(op: BinaryOperator, column: &ColumnName, literal: &Scalar) -> (r: Expression)
    ensures
        r@ == skipping_comparison(op, column@, literal@),
{
    match op {
        BinaryOperator::LessThan => compare_stat(op, "minValues", column, literal),
        BinaryOperator::LessThanOrEqual => compare_stat(op, "minValues", column, literal),
        BinaryOperator::GreaterThan => compare_stat(op, "maxValues", column, literal),
        BinaryOperator::GreaterThanOrEqual => compare_stat(op, "maxValues", column, literal),
        BinaryOperator::Equal => both(
            VariadicOperator::And,
            compare_stat(BinaryOperator::LessThanOrEqual, "minValues", column, literal),
            compare_stat(BinaryOperator::GreaterThanOrEqual, "maxValues", column, literal),
        ),
        BinaryOperator::NotEqual => both(
            VariadicOperator::Or,
            compare_stat(BinaryOperator::NotEqual, "minValues", column, literal),
            compare_stat(BinaryOperator::NotEqual, "maxValues", column, literal),
        ),
    }
}

fn null_check(column: &ColumnName, inverted: bool) -> (r: Expression)
    ensures
        r@ == skipping_null_check(column@, inverted),
{
    proof {
        reveal_with_fuel(expr_view, 3);
    }
    if inverted {
        Expression::Binary(
            BinaryOperator::NotEqual,
            Box::new(stat_column("nullCount", column)),
            Box::new(Expression::Column(ColumnName::of1("numRecords"))),
        )
    } else {
        Expression::Binary(
            BinaryOperator::GreaterThan,
            Box::new(stat_column("nullCount", column)),
            Box::new(Expression::Literal(Scalar::Long(0))),
        )
    }
}

/// The skipping predicates of those of the expressions `es` that have one,
/// in order, and whether all of them have one.
fn skipping_parts_of(es: &Vec<Expression>, inverted: bool) -> (r: (Vec<Expression>, bool))
    ensures
        expr_views(r.0@) == present(skipping_parts(expr_views(es@), inverted)),
        r.1 == all_present(skipping_parts(expr_views(es@), inverted)),
    decreases es, 0nat,
{
    let ghost parts = skipping_parts(expr_views(es@), inverted);
    let mut kept: Vec<Expression> = Vec::new();
    let mut all: bool = true;
    let mut i: usize = 0;
    assert(parts.take(0) =~= Seq::<Option<ExprView>>::empty());
    while i < es.len()
        invariant
            i <= es.len(),
            parts == skipping_parts(expr_views(es@), inverted),
            parts.len() == es.len(),
            expr_views(kept@) == present(parts.take(i as int)),
            all == all_present(parts.take(i as int)),
        decreases es.len() - i,
    {
        let part = as_data_skipping_predicate(&es[i], inverted);
        proof {
            assert(parts.take(i + 1).drop_last() =~= parts.take(i as int));
            assert(parts.take(i + 1).last() == parts[i as int]);
            assert(parts[i as int] == skipping_predicate(es[i as int]@, inverted));
            if all_present(parts.take(i as int)) && parts[i as int] is Some {
                assert forall|j: int| 0 <= j < i + 1 implies (#[trigger] parts.take(i + 1)[j])
                    is Some by {
                    if j < i {
                        assert(parts.take(i as int)[j] is Some);
                    }
                }
            }
            if !all_present(parts.take(i as int)) {
                let j = choose|j: int| 0 <= j < i && !((#[trigger] parts.take(i as int)[j]) is Some);
                assert(!(parts.take(i + 1)[j] is Some));
            }
            if parts[i as int] is None {
                assert(!(parts.take(i + 1)[i as int] is Some));
            }
        }
        let ghost before = expr_views(kept@);
        match part {
            Some(e) => {
                kept.push(e);
                assert(expr_views(kept@) =~= before.push(e@));
            },
            None => {
                all = false;
            },
        }
        i += 1;
    }
    assert(parts.take(i as int) =~= parts);
    (kept, all)
}

/// The predicate over the statistics of a file that is false only if no row
/// of the file satisfies `e` (or, if `inverted`, the negation of `e`), if
/// the statistics say anything about `e`.
pub fn as_data_skipping_predicate(e: &Expression, inverted: bool) -> (r: Option<Expression>)
    ensures
        match skipping_predicate(e@, inverted) {
            Some(v) => r matches Some(x) && x@ == v,
            None => r is None,
        },
    decreases e, 1nat,
{
    proof {
        reveal_with_fuel(expr_view, 3);
    }
    match e {
        Expression::Unary(UnaryOperator::Not, a) => as_data_skipping_predicate(a, !inverted),
        Expression::Unary(UnaryOperator::IsNull, a) => match &**a {
            Expression::Column(c) => Some(null_check(c, inverted)),
            _ => None,
        },
        Expression::Binary(op, a, b) => match (&**a, &**b) {
            (Expression::Column(c), Expression::Literal(l)) => {
                let over: BinaryOperator = if inverted {
                    inverse_of(*op)
                } else {
                    *op
                };
                Some(comparison(over, c, l))
            },
            (Expression::Literal(l), Expression::Column(c)) => {
                let over: BinaryOperator = if inverted {
                    inverse_of(converse_of(*op))
                } else {
                    converse_of(*op)
                };
                Some(comparison(over, c, l))
            },
            _ => None,
        },
        Expression::Variadic(op, es) => {
            assert(e@->Variadic_1 =~= expr_views(es@));
            let (kept, all) = skipping_parts_of(es, inverted);
            let conjunction: bool = match op {
                VariadicOperator::And => !inverted,
                VariadicOperator::Or => inverted,
            };
            if conjunction {
                let r = Expression::Variadic(VariadicOperator::And, kept);
                assert(r@->Variadic_1 =~= expr_views(kept@));
                Some(r)
            } else if all {
                let r = Expression::Variadic(VariadicOperator::Or, kept);
                assert(r@->Variadic_1 =~= expr_views(kept@));
                Some(r)
            } else {
                None
            }
        },
        _ => None,
    }
}

/// Prunes the adds of a batch by the statistics of their files.
pub struct DataSkippingFilter {
    /// The predicate over the statistics of a file that is false only if no
    /// row of the file satisfies the predicate of the query.
    pub skipping_predicate: Expression,
}

impl DataSkippingFilter {
    /// The filter for the predicate of a query, given with the schema of the
    /// columns it refers to. There is none if there is no predicate, or if
    /// statistics say nothing about it. Statistics are found by the names of
    /// the columns, so the schema is not consulted.
    pub fn new(physical_predicate: Option<(Expression, StructType)>) -> (r: Option<
        DataSkippingFilter,
    >)
        ensures
            match physical_predicate {
                Some(given) => match skipping_predicate(given.0@, false) {
                    Some(s) => r matches Some(f) && f.skipping_predicate@ == s,
                    None => r is None,
                },
                None => r is None,
            },
    {
        match physical_predicate {
            Some(given) => match as_data_skipping_predicate(&given.0, false) {
                Some(skipping_predicate) => Some(DataSkippingFilter { skipping_predicate }),
                None => None,
            },
            None => None,
        }
    }

    /// The selection vector of a batch after data skipping: a row is
    /// deselected exactly if it is an add whose statistics rule the file out.
    pub fn apply(&self, actions: &ActionBatch) -> (r: DeltaResult<Vec<bool>>)
        ensures
            r matches Ok(selection) && selection@.len() == actions@.num_rows && forall|i: int|
                0 <= i < selection@.len() ==> selection@[i] == !is_skipped(
                    actions@,
                    self.skipping_predicate@,
                    i,
                ),
    {
        let n: usize = actions.len();
        let add_path = ColumnName::of2("add", "path");
        let paths: Option<&Column> = actions.column(&add_path);
        let mut selection: Vec<bool> = Vec::new();
        let mut i: usize = 0;
        while i < n
            invariant
                i <= n,
                n == actions@.num_rows,
                add_path@ == seq!["add"@, "path"@],
                paths is Some <==> actions@.has_column(add_path@),
                paths matches Some(c) ==> c@ == actions@.column(add_path@) && c@.len()
                    == actions@.num_rows,
                selection@.len() == i,
                forall|j: int|
                    0 <= j < i ==> selection@[j] == !is_skipped(
                        actions@,
                        self.skipping_predicate@,
                        j,
                    ),
            decreases n - i,
        {
            let is_add: bool = match paths {
                Some(column) => match column.get_str(i) {
                    Ok(Some(_)) => true,
                    _ => false,
                },
                None => false,
            };
            let keep: bool = if is_add {
                let evaluator = DefaultPredicateEvaluator::new(StatsResolver::new(actions, i));
                match evaluator.eval_expr(&self.skipping_predicate) {
                    Some(possible) => possible,
                    None => true,
                }
            } else {
                true
            };
            selection.push(keep);
            i += 1;
        }
        Ok(selection)
    }
}

/// Whether the statistics `stats` of a file are true of a row `row` of the
/// file. For every column that has a value in the row: a statistic that is
/// present can be compared with the value, the least value is not greater
/// and the greatest not less than it, and the column is not said to have
/// nulls only. For every column that is null in the row: the column is not
/// said to have no nulls.
pub open spec fn stats_cover(stats: Bindings, row: Bindings) -> bool {
    forall|c: Seq<Seq<char>>| #[trigger]
        row.contains_key(c) ==> if row[c].is_null() {
            eval(stats, skipping_null_check(c, false)) != Some(false)
        } else {
            &&& stats.contains_key(stat_name("minValues"@, c)) ==> (scalar_order(
                stats[stat_name("minValues"@, c)],
                row[c],
            ) matches Some(o) && o <= 0)
            &&& stats.contains_key(stat_name("maxValues"@, c)) ==> (scalar_order(
                row[c],
                stats[stat_name("maxValues"@, c)],
            ) matches Some(o) && o <= 0)
            &&& eval(stats, skipping_null_check(c, true)) != Some(false)
        }
}

/// A comparison holds of `(b, a)` by the converse operator exactly where it
/// holds of `(a, b)`, and by the inverse operator exactly where it does not.
proof fn lemma_compare_turns(op: BinaryOperator, a: ScalarView, b: ScalarView)
    ensures
        compare(converse(op), b, a) == compare(op, a, b),
        compare(inverse(op), a, b) == match compare(op, a, b) {
            Some(r) => Some(!r),
            None => None,
        },
{
    lemma_scalar_order_converse(a, b);
}

/// Where a value of a column satisfies a comparison with a literal, the
/// statistics of the column do not rule the comparison out.
proof fn lemma_comparison_is_sound(
    stats: Bindings,
    row: Bindings,
    op: BinaryOperator,
    c: Seq<Seq<char>>,
    l: ScalarView,
)
    requires
        stats_cover(stats, row),
        row.contains_key(c),
        compare(op, row[c], l) == Some(true),
    ensures
        eval(stats, skipping_comparison(op, c, l)) != Some(false),
{
    let v = row[c];
    let least = stat_name("minValues"@, c);
    let greatest = stat_name("maxValues"@, c);
    let lit = ExprView::Literal(l);
    assert(!v.is_null());
    // What the statistics say of the literal, where they say anything.
    let below = |o: BinaryOperator| eval(stats, binary(o, min_of(c), lit));
    let above = |o: BinaryOperator| eval(stats, binary(o, max_of(c), lit));
    assert forall|o: BinaryOperator| #[trigger] below(o) == if stats.contains_key(least) {
        compare(o, stats[least], l)
    } else {
        None
    } by {}
    assert forall|o: BinaryOperator| #[trigger] above(o) == if stats.contains_key(greatest) {
        compare(o, stats[greatest], l)
    } else {
        None
    } by {}
    if stats.contains_key(least) && (scalar_order(v, l) matches Some(y) && y <= 0) {
        lemma_scalar_order_transitive(stats[least], v, l);
    }
    if stats.contains_key(greatest) && (scalar_order(v, l) matches Some(y) && y >= 0) {
        lemma_scalar_order_converse(v, l);
        lemma_scalar_order_converse(v, stats[greatest]);
        lemma_scalar_order_transitive(l, v, stats[greatest]);
        lemma_scalar_order_converse(l, stats[greatest]);
    }
    match op {
        BinaryOperator::Equal => {
            let parts = seq![
                binary(BinaryOperator::LessThanOrEqual, min_of(c), lit),
                binary(BinaryOperator::GreaterThanOrEqual, max_of(c), lit),
            ];
            let rs = outcomes(stats, parts, false);
            assert(rs[0] == below(BinaryOperator::LessThanOrEqual));
            assert(rs[1] == above(BinaryOperator::GreaterThanOrEqual));
            assert(eval(stats, skipping_comparison(op, c, l)) == all_of(rs));
        },
        BinaryOperator::NotEqual => {
            let parts = seq![
                binary(BinaryOperator::NotEqual, min_of(c), lit),
                binary(BinaryOperator::NotEqual, max_of(c), lit),
            ];
            let rs = outcomes(stats, parts, false);
            assert(rs[0] == below(BinaryOperator::NotEqual));
            assert(rs[1] == above(BinaryOperator::NotEqual));
            assert(eval(stats, skipping_comparison(op, c, l)) == any_of(rs));
            if any_of(rs) == Some(false) {
                assert(rs[0] == Some(false) && rs[1] == Some(false));
            }
        },
        BinaryOperator::LessThan => {
            assert(eval(stats, skipping_comparison(op, c, l)) == below(op));
        },
        BinaryOperator::LessThanOrEqual => {
            assert(eval(stats, skipping_comparison(op, c, l)) == below(op));
        },
        BinaryOperator::GreaterThan => {
            assert(eval(stats, skipping_comparison(op, c, l)) == above(op));
        },
        BinaryOperator::GreaterThanOrEqual => {
            assert(eval(stats, skipping_comparison(op, c, l)) == above(op));
        },
    }
}

/// Every skipping predicate that is present belongs to one of the parts.
proof fn lemma_present_parts(parts: Seq<Option<ExprView>>)
    ensures
        forall|k: int|
            0 <= k < present(parts).len() ==> exists|i: int|
                0 <= i < parts.len() && parts[i] == Some(#[trigger] present(parts)[k]),
        all_present(parts) ==> present(parts).len() == parts.len() && forall|i: int|
            0 <= i < parts.len() ==> parts[i] == Some(#[trigger] present(parts)[i]),
    decreases parts.len(),
{
    if parts.len() > 0 {
        let rest = parts.drop_last();
        lemma_present_parts(rest);
        assert forall|k: int| 0 <= k < present(parts).len() implies exists|i: int|
            0 <= i < parts.len() && parts[i] == Some(#[trigger] present(parts)[k]) by {
            if k < present(rest).len() {
                let i = choose|i: int| 0 <= i < rest.len() && rest[i] == Some(present(rest)[k]);
                assert(parts[i] == rest[i]);
            } else {
                assert(parts[parts.len() - 1] == Some(present(parts)[k]));
            }
        }
        if all_present(parts) {
            assert forall|i: int| 0 <= i < rest.len() implies (#[trigger] rest[i]) is Some by {
                assert(parts[i] is Some);
            }
            assert(parts[parts.len() - 1] is Some);
        }
    }
}

/// Data skipping is sound: where a predicate holds of a row of a file (or,
/// if `inverted`, fails it), the statistics of the file do not make the
/// skipping predicate false.
pub proof fn lemma_skipping_is_sound(stats: Bindings, row: Bindings, e: ExprView, inverted: bool)
    requires
        stats_cover(stats, row),
        eval(row, e) == Some(!inverted),
        skipping_predicate(e, inverted) is Some,
    ensures
        eval(stats, skipping_predicate(e, inverted)->Some_0) != Some(false),
    decreases e,
{
    match e {
        ExprView::Unary(UnaryOperator::Not, a) => {
            lemma_skipping_is_sound(stats, row, *a, !inverted);
        },
        ExprView::Unary(UnaryOperator::IsNull, a) => {
            let c = (*a)->Column_0;
            assert(row.contains_key(c));
        },
        ExprView::Binary(op, a, b) => {
            match (*a, *b) {
                (ExprView::Column(c), ExprView::Literal(l)) => {
                    lemma_compare_turns(op, row[c], l);
                    let over = if inverted {
                        inverse(op)
                    } else {
                        op
                    };
                    lemma_comparison_is_sound(stats, row, over, c, l);
                },
                (ExprView::Literal(l), ExprView::Column(c)) => {
                    lemma_compare_turns(op, l, row[c]);
                    lemma_compare_turns(converse(op), row[c], l);
                    let over = if inverted {
                        inverse(converse(op))
                    } else {
                        converse(op)
                    };
                    lemma_comparison_is_sound(stats, row, over, c, l);
                },
                _ => {},
            }
        },
        ExprView::Variadic(op, es) => {
            let parts = skipping_parts(es, inverted);
            let kept = present(parts);
            let over = if inverted {
                dual(op)
            } else {
                op
            };
            let found = outcomes(row, es, false);
            let rs = outcomes(stats, kept, false);
            lemma_present_parts(parts);
            assert(eval(stats, skipping_predicate(e, inverted)->Some_0) == combine(over, rs));
            // A part whose predicate holds of the row (or fails it, if
            // inverted) is not ruled out.
            assert forall|i: int|
                0 <= i < es.len() && found[i] == Some(!inverted) && parts[i] is Some implies eval(
                stats,
                (#[trigger] parts[i])->Some_0,
            ) != Some(false) by {
                lemma_skipping_is_sound(stats, row, es[i], inverted);
            }
            match over {
                VariadicOperator::And => {
                    // Every part holds of the row.
                    assert forall|i: int| 0 <= i < es.len() implies found[i] == Some(
                        !inverted,
                    ) by {}
                    assert forall|k: int| 0 <= k < rs.len() implies rs[k] != Some(false) by {
                        let i = choose|i: int| 0 <= i < parts.len() && parts[i] == Some(kept[k]);
                        assert(found[i] == Some(!inverted));
                        assert(eval(stats, parts[i]->Some_0) != Some(false));
                    }
                },
                VariadicOperator::Or => {
                    // Some part holds of the row.
                    let i = choose|i: int| 0 <= i < found.len() && found[i] == Some(!inverted);
                    assert(0 <= i < found.len() && found[i] == Some(!inverted));
                    assert(parts[i] == Some(kept[i]));
                    assert(eval(stats, parts[i]->Some_0) != Some(false));
                    assert(rs[i] != Some(false));
                },
            }
        },
        _ => {},
    }
}

/// A predicate that holds as the filter of a query holds as a predicate.
pub proof fn lemma_filter_holds_as_predicate(row: Bindings, e: ExprView)
    requires
        eval_sql_where(row, e) == Some(true),
    ensures
        eval(row, e) == Some(true),
    decreases e,
{
    match e {
        ExprView::Variadic(VariadicOperator::And, es) => {
            let filtered = outcomes(row, es, true);
            let plain = outcomes(row, es, false);
            assert forall|i: int| 0 <= i < es.len() implies plain[i] == Some(true) by {
                assert(filtered[i] == Some(true));
                lemma_filter_holds_as_predicate(row, es[i]);
            }
        },
        ExprView::Binary(op, a, b) => {
            let rs = seq![is_not_null(row, *a), is_not_null(row, *b), eval(row, e)];
            assert(rs[2] == eval(row, e));
        },
        _ => {},
    }
}

/// A file that holds a row of which the predicate of the query holds is not
/// skipped, provided that its statistics are true of the row.
pub proof fn lemma_matching_file_is_kept(batch: BatchView, i: int, row: Bindings, e: ExprView)
    requires
        stats_cover(stats_bindings(batch, i), row),
        eval_sql_where(row, e) == Some(true),
        skipping_predicate(e, false) is Some,
    ensures
        !is_skipped(batch, skipping_predicate(e, false)->Some_0, i),
{
    lemma_filter_holds_as_predicate(row, e);
    lemma_skipping_is_sound(stats_bindings(batch, i), row, e, false);
}

} // verus!
