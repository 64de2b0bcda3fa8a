//! Evaluation of predicates in three-valued logic.
//!
//! A predicate is evaluated against an environment that binds some columns to
//! scalars. The result is `Some(true)` or `Some(false)` where the bindings
//! decide it and `None` where they do not: because a column is not bound, a
//! value is null, or the operands cannot be compared.

use crate::expressions::{
    BinaryOperator, ExprView, Expression, Scalar, ScalarView, UnaryOperator, VariadicOperator,
};
use crate::schema::ColumnName;
use vstd::prelude::*;

verus! {

/// The bindings of column names to scalars.
pub type Bindings = Map<Seq<Seq<char>>, ScalarView>;

/// The source of the values of columns during evaluation.
pub trait ColumnResolver {
    /// The columns that have a value, each with its value.
    spec fn bindings(&self) -> Bindings;

    /// The value of the column `name`, if it has one.
    fn resolve_column(&self, name: &ColumnName) -> (r: Option<Scalar>)
        ensures
            r is Some <==> self.bindings().contains_key(name@),
            r matches Some(s) ==> s@ == self.bindings()[name@],
    ;
}

/// How two sequences of characters are ordered, first difference first:
/// negative, zero or positive as `a` is less than, equal to or greater than `b`.
pub open spec fn text_order(a: Seq<char>, b: Seq<char>) -> int
    decreases a.len(),
{
    if a.len() == 0 {
        if b.len() == 0 {
            0
        } else {
            -1
        }
    } else if b.len() == 0 {
        1
    } else if a[0] < b[0] {
        -1
    } else if a[0] > b[0] {
        1
    } else {
        text_order(a.drop_first(), b.drop_first())
    }
}

pub open spec fn int_order(a: int, b: int) -> int {
    if a < b {
        -1
    } else if a > b {
        1
    } else {
        0
    }
}

/// How two scalars are ordered: negative, zero or positive. `None` where they
/// are of different types or one of them is null.
pub open spec fn scalar_order(a: ScalarView, b: ScalarView) -> Option<int> {
    match (a, b) {
        (ScalarView::Integer(x), ScalarView::Integer(y)) => Some(int_order(x as int, y as int)),
        (ScalarView::Long(x), ScalarView::Long(y)) => Some(int_order(x as int, y as int)),
        (ScalarView::Short(x), ScalarView::Short(y)) => Some(int_order(x as int, y as int)),
        (ScalarView::Byte(x), ScalarView::Byte(y)) => Some(int_order(x as int, y as int)),
        (ScalarView::Date(x), ScalarView::Date(y)) => Some(int_order(x as int, y as int)),
        (ScalarView::Timestamp(x), ScalarView::Timestamp(y)) => Some(
            int_order(x as int, y as int),
        ),
        (ScalarView::TimestampNtz(x), ScalarView::TimestampNtz(y)) => Some(
            int_order(x as int, y as int),
        ),
        (ScalarView::Boolean(x), ScalarView::Boolean(y)) => Some(
            int_order(
                if x {
                    1
                } else {
                    0
                },
                if y {
                    1
                } else {
                    0
                },
            ),
        ),
        (ScalarView::String(x), ScalarView::String(y)) => Some(text_order(x, y)),
        _ => None,
    }
}

pub open spec fn holds_of_order(op: BinaryOperator, o: int) -> bool {
    match op {
        BinaryOperator::LessThan => o < 0,
        BinaryOperator::LessThanOrEqual => o <= 0,
        BinaryOperator::GreaterThan => o > 0,
        BinaryOperator::GreaterThanOrEqual => o >= 0,
        BinaryOperator::Equal => o == 0,
        BinaryOperator::NotEqual => o != 0,
    }
}

/// The outcome of comparing two scalars.
pub open spec fn compare(op: BinaryOperator, a: ScalarView, b: ScalarView) -> Option<bool> {
    match scalar_order(a, b) {
        Some(o) => Some(holds_of_order(op, o)),
        None => None,
    }
}

/// The value of an operand: a literal is its scalar, a bound column its
/// binding. Anything else has no value.
pub open spec fn value_of(env: Bindings, e: ExprView) -> Option<ScalarView> {
    match e {
        ExprView::Literal(s) => Some(s),
        ExprView::Column(c) => if env.contains_key(c) {
            Some(env[c])
        } else {
            None
        },
        _ => None,
    }
}

pub open spec fn negate(a: Option<bool>) -> Option<bool> {
    match a {
        Some(b) => Some(!b),
        None => None,
    }
}

/// The conjunction of outcomes: false if one is false, else unknown if one is
/// unknown, else true.
pub open spec fn all_of(rs: Seq<Option<bool>>) -> Option<bool> {
    if exists|i: int| 0 <= i < rs.len() && rs[i] == Some(false) {
        Some(false)
    } else if exists|i: int| 0 <= i < rs.len() && rs[i] is None {
        None
    } else {
        Some(true)
    }
}

/// The disjunction of outcomes: true if one is true, else unknown if one is
/// unknown, else false.
pub open spec fn any_of(rs: Seq<Option<bool>>) -> Option<bool> {
    if exists|i: int| 0 <= i < rs.len() && rs[i] == Some(true) {
        Some(true)
    } else if exists|i: int| 0 <= i < rs.len() && rs[i] is None {
        None
    } else {
        Some(false)
    }
}

pub open spec fn combine(op: VariadicOperator, rs: Seq<Option<bool>>) -> Option<bool> {
    match op {
        VariadicOperator::And => all_of(rs),
        VariadicOperator::Or => any_of(rs),
    }
}

/// Whether the operand is known not to be null.
pub open spec fn is_not_null(env: Bindings, e: ExprView) -> Option<bool> {
    match value_of(env, e) {
        Some(v) => Some(!v.is_null()),
        None => None,
    }
}

/// The outcomes of the expressions `es`, in order, each taken as a filter if
/// `filter` is set and as a plain predicate otherwise.
pub open spec fn outcomes(env: Bindings, es: Seq<ExprView>, filter: bool) -> Seq<Option<bool>>
    decreases es, 0nat,
{
    Seq::new(
        es.len(),
        |i: int|
            if 0 <= i < es.len() {
                if filter {
                    eval_sql_where(env, es[i])
                } else {
                    eval(env, es[i])
                }
            } else {
                None
            },
    )
}

/// The outcome of a predicate under the bindings `env`.
pub open spec fn eval(env: Bindings, e: ExprView) -> Option<bool>
    decreases e, 0nat,
{
    match e {
        ExprView::Literal(ScalarView::Boolean(b)) => Some(b),
        ExprView::Literal(_) => None,
        ExprView::Column(c) => if env.contains_key(c) {
            match env[c] {
                ScalarView::Boolean(b) => Some(b),
                _ => None,
            }
        } else {
            None
        },
        ExprView::Struct(_) => None,
        ExprView::Unary(UnaryOperator::Not, a) => negate(eval(env, *a)),
        ExprView::Unary(UnaryOperator::IsNull, a) => negate(is_not_null(env, *a)),
        ExprView::Binary(op, a, b) => match (value_of(env, *a), value_of(env, *b)) {
            (Some(x), Some(y)) => compare(op, x, y),
            _ => None,
        },
        ExprView::Variadic(op, es) => combine(op, outcomes(env, es, false)),
    }
}

/// The outcome of a predicate as the filter of a query: a row passes only
/// where the filter is true, so a comparison with a null operand, which is
/// unknown as a predicate, here is false. This holds at the top of the filter
/// and below its conjunctions.
pub open spec fn eval_sql_where(env: Bindings, e: ExprView) -> Option<bool>
    decreases e, 1nat,
{
    match e {
        ExprView::Variadic(VariadicOperator::And, es) => all_of(outcomes(env, es, true)),
        ExprView::Binary(op, a, b) => all_of(
            seq![is_not_null(env, *a), is_not_null(env, *b), eval(env, e)],
        ),
        _ => eval(env, e),
    }
}

/// The order of texts is one of less, equal and greater, and it turns round
/// with its arguments.
pub proof fn lemma_text_order_converse(a: Seq<char>, b: Seq<char>)
    ensures
        -1 <= text_order(a, b) <= 1,
        text_order(b, a) == -text_order(a, b),
    decreases a.len(),
{
    if a.len() > 0 && b.len() > 0 && a[0] == b[0] {
        lemma_text_order_converse(a.drop_first(), b.drop_first());
    }
}

/// The order of texts is transitive, and strictly so where one of the two
/// steps is strict.
pub proof fn lemma_text_order_transitive(a: Seq<char>, b: Seq<char>, c: Seq<char>)
    requires
        text_order(a, b) <= 0,
        text_order(b, c) <= 0,
    ensures
        text_order(a, c) <= 0,
        text_order(a, b) < 0 || text_order(b, c) < 0 ==> text_order(a, c) < 0,
    decreases a.len(),
{
    lemma_text_order_converse(a, c);
    if a.len() > 0 {
        assert(b.len() > 0);
        assert(c.len() > 0);
        if a[0] == b[0] && b[0] == c[0] {
            lemma_text_order_transitive(a.drop_first(), b.drop_first(), c.drop_first());
        }
    }
}

/// The order of scalars turns round with its arguments.
pub proof fn lemma_scalar_order_converse(a: ScalarView, b: ScalarView)
    ensures
        scalar_order(b, a) == match scalar_order(a, b) {
            Some(o) => Some(-o),
            None => None,
        },
{
    match (a, b) {
        (ScalarView::String(x), ScalarView::String(y)) => {
            lemma_text_order_converse(x, y);
        },
        _ => {},
    }
}

/// The order of scalars is transitive, and strictly so where one of the two
/// steps is strict.
pub proof fn lemma_scalar_order_transitive(a: ScalarView, b: ScalarView, c: ScalarView)
    requires
        scalar_order(a, b) matches Some(x) && x <= 0,
        scalar_order(b, c) matches Some(y) && y <= 0,
    ensures
        scalar_order(a, c) matches Some(z) && z <= 0 && (scalar_order(a, b)->Some_0 < 0
            || scalar_order(b, c)->Some_0 < 0 ==> z < 0),
{
    match (a, b, c) {
        (ScalarView::String(x), ScalarView::String(y), ScalarView::String(z)) => {
            lemma_text_order_transitive(x, y, z);
        },
        _ => {},
    }
}

proof fn lemma_text_order_step(a: Seq<char>, b: Seq<char>, i: int)
    requires
        0 <= i < a.len(),
        i < b.len(),
        a[i] == b[i],
    ensures
        text_order(a.skip(i), b.skip(i)) == text_order(a.skip(i + 1), b.skip(i + 1)),
{
    assert(a.skip(i).drop_first() =~= a.skip(i + 1));
    assert(b.skip(i).drop_first() =~= b.skip(i + 1));
}

/// Orders two texts by their characters, first difference first.
pub fn order_text(a: &str, b: &str) -> (r: i8)
    ensures
        r as int == text_order(a@, b@),
        -1 <= r <= 1,
{
    let n: usize = a.unicode_len();
    let m: usize = b.unicode_len();
    let mut i: usize = 0;
    assert(a@.skip(0) =~= a@ && b@.skip(0) =~= b@);
    while i < n && i < m
        invariant
            i <= n,
            i <= m,
            n == a@.len(),
            m == b@.len(),
            text_order(a@, b@) == text_order(a@.skip(i as int), b@.skip(i as int)),
        decreases n - i,
    {
        let x: char = a.get_char(i);
        let y: char = b.get_char(i);
        if x < y {
            return -1;
        }
        if x > y {
            return 1;
        }
        proof {
            lemma_text_order_step(a@, b@, i as int);
        }
        i += 1;
    }
    if i < m {
        -1
    } else if i < n {
        1
    } else {
        0
    }
}

fn order_ints(a: i64, b: i64) -> (r: i8)
    ensures
        r as int == int_order(a as int, b as int),
{
    if a < b {
        -1
    } else if a > b {
        1
    } else {
        0
    }
}

/// Orders two scalars of one type, neither of them null.
pub fn order_scalars(a: &Scalar, b: &Scalar) -> (r: Option<i8>)
    ensures
        match scalar_order(a@, b@) {
            Some(o) => r == Some(o as i8) && -1 <= o <= 1,
            None => r is None,
        },
{
    match (a, b) {
        (Scalar::Integer(x), Scalar::Integer(y)) => Some(order_ints(*x as i64, *y as i64)),
        (Scalar::Long(x), Scalar::Long(y)) => Some(order_ints(*x, *y)),
        (Scalar::Short(x), Scalar::Short(y)) => Some(order_ints(*x as i64, *y as i64)),
        (Scalar::Byte(x), Scalar::Byte(y)) => Some(order_ints(*x as i64, *y as i64)),
        (Scalar::Date(x), Scalar::Date(y)) => Some(order_ints(*x as i64, *y as i64)),
        (Scalar::Timestamp(x), Scalar::Timestamp(y)) => Some(order_ints(*x, *y)),
        (Scalar::TimestampNtz(x), Scalar::TimestampNtz(y)) => Some(order_ints(*x, *y)),
        (Scalar::Boolean(x), Scalar::Boolean(y)) => {
            let p: i64 = if *x {
                1
            } else {
                0
            };
            let q: i64 = if *y {
                1
            } else {
                0
            };
            Some(order_ints(p, q))
        },
        (Scalar::String(x), Scalar::String(y)) => Some(order_text(x.as_str(), y.as_str())),
        _ => None,
    }
}

/// Compares two scalars.
pub fn compare_scalars(op: BinaryOperator, a: &Scalar, b: &Scalar) -> (r: Option<bool>)
    ensures
        r == compare(op, a@, b@),
{
    match order_scalars(a, b) {
        Some(o) => Some(
            match op {
                BinaryOperator::LessThan => o < 0,
                BinaryOperator::LessThanOrEqual => o <= 0,
                BinaryOperator::GreaterThan => o > 0,
                BinaryOperator::GreaterThanOrEqual => o >= 0,
                BinaryOperator::Equal => o == 0,
                BinaryOperator::NotEqual => o != 0,
            },
        ),
        None => None,
    }
}

/// Evaluates predicates over the values that a [`ColumnResolver`] supplies.
pub struct DefaultPredicateEvaluator<R: ColumnResolver> {
    pub resolver: R,
}

impl<R: ColumnResolver> DefaultPredicateEvaluator<R> {
    pub fn new(resolver: R) -> (r: Self)
        ensures
            r.resolver == resolver,
    {
        DefaultPredicateEvaluator { resolver }
    }

    /// The bindings under which this evaluator evaluates.
    pub open spec fn bindings(&self) -> Bindings {
        self.resolver.bindings()
    }

    fn operand(&self, e: &Expression) -> (r: Option<Scalar>)
        ensures
            match value_of(self.bindings(), e@) {
                Some(v) => r matches Some(s) && s@ == v,
                None => r is None,
            },
    {
        match e {
            Expression::Literal(s) => Some(s.clone()),
            Expression::Column(c) => self.resolver.resolve_column(c),
            _ => None,
        }
    }

    fn operand_is_not_null(&self, e: &Expression) -> (r: Option<bool>)
        ensures
            r == is_not_null(self.bindings(), e@),
    {
        match self.operand(e) {
            Some(v) => Some(!v.is_null()),
            None => None,
        }
    }

    fn eval_all(&self, op: VariadicOperator, es: &Vec<Expression>, filter: bool) -> (r: Option<
        bool,
    >)
        ensures
            r == combine(
                op,
                outcomes(self.bindings(), crate::expressions::expr_views(es@), filter),
            ),
        decreases es, 0nat,
    {
        let ghost rs = outcomes(self.bindings(), crate::expressions::expr_views(es@), filter);
        // For a conjunction the outcome that decides is `false`, for a
        // disjunction it is `true`.
        let decisive: bool = match op {
            VariadicOperator::And => false,
            VariadicOperator::Or => true,
        };
        let mut unknown: bool = false;
        let mut i: usize = 0;
        while i < es.len()
            invariant
                i <= es.len(),
                rs == outcomes(self.bindings(), crate::expressions::expr_views(es@), filter),
                rs.len() == es.len(),
                decisive == (op == VariadicOperator::Or),
                forall|j: int| 0 <= j < i ==> rs[j] != Some(decisive),
                unknown <==> exists|j: int| 0 <= j < i && rs[j] is None,
            decreases es.len() - i,
        {
            let r: Option<bool> = if filter {
                self.eval_sql_where(&es[i])
            } else {
                self.eval_expr(&es[i])
            };
            assert(r == rs[i as int]);
            match r {
                Some(b) => {
                    if b == decisive {
                        return Some(decisive);
                    }
                },
                None => {
                    unknown = true;
                },
            }
            i += 1;
        }
        if unknown {
            None
        } else {
            Some(!decisive)
        }
    }

    /// Evaluates a predicate.
    pub fn eval_expr(&self, e: &Expression) -> (r: Option<bool>)
        ensures
            r == eval(self.bindings(), e@),
        decreases e, 1nat,
    {
        match e {
            Expression::Literal(Scalar::Boolean(b)) => Some(*b),
            Expression::Literal(_) => None,
            Expression::Column(c) => match self.resolver.resolve_column(c) {
                Some(Scalar::Boolean(b)) => Some(b),
                _ => None,
            },
            Expression::Struct(_) => None,
            Expression::Unary(UnaryOperator::Not, a) => match self.eval_expr(a) {
                Some(b) => Some(!b),
                None => None,
            },
            Expression::Unary(UnaryOperator::IsNull, a) => match self.operand_is_not_null(a) {
                Some(b) => Some(!b),
                None => None,
            },
            Expression::Binary(op, a, b) => {
                let x = self.operand(a);
                let y = self.operand(b);
                match (x, y) {
                    (Some(x), Some(y)) => compare_scalars(*op, &x, &y),
                    _ => None,
                }
            },
            Expression::Variadic(op, es) => {
                assert(e@->Variadic_1 =~= crate::expressions::expr_views(es@));
                self.eval_all(*op, es, false)
            },
        }
    }

    /// Evaluates a predicate as the filter of a query.
    pub fn eval_sql_where(&self, filter: &Expression) -> (r: Option<bool>)
        ensures
            r == eval_sql_where(self.bindings(), filter@),
        decreases filter, 2nat,
    {
        match filter {
            Expression::Variadic(VariadicOperator::And, es) => {
                assert(filter@->Variadic_1 =~= crate::expressions::expr_views(es@));
                self.eval_all(VariadicOperator::And, es, true)
            },
            Expression::Binary(_, a, b) => {
                let left: Option<bool> = self.operand_is_not_null(a);
                let right: Option<bool> = self.operand_is_not_null(b);
                let both: Option<bool> = self.eval_expr(filter);
                let ghost rs = seq![left, right, both];
                assert(rs[0] == left && rs[1] == right && rs[2] == both);
                if is_false(left) || is_false(right) || is_false(both) {
                    Some(false)
                } else if left.is_none() || right.is_none() || both.is_none() {
                    None
                } else {
                    Some(true)
                }
            },
            _ => self.eval_expr(filter),
        }
    }
}

fn is_false(r: Option<bool>) -> (b: bool)
    ensures
        b == (r == Some(false)),
{
    match r {
        Some(v) => !v,
        None => false,
    }
}

} // verus!
