//! Scalars, expressions over columns, and the transform that maps the physical
//! columns of a data file to the logical schema.

use crate::schema::{ColumnName, PrimitiveType};
use vstd::prelude::*;

verus! {

/// A single value of a primitive type, or the null of that type.
#[derive(Debug, PartialEq, Eq)]
pub enum Scalar {
    Integer(i32),
    Long(i64),
    Short(i16),
    Byte(i8),
    Boolean(bool),
    String(String),
    /// Days since 1970-01-01.
    Date(i32),
    /// Microseconds since 1970-01-01 00:00:00 UTC.
    Timestamp(i64),
    /// Microseconds since 1970-01-01 00:00:00, in no time zone.
    TimestampNtz(i64),
    Null(PrimitiveType),
}

/// The mathematical value of a [`Scalar`].
pub enum ScalarView {
    Integer(i32),
    Long(i64),
    Short(i16),
    Byte(i8),
    Boolean(bool),
    String(Seq<char>),
    Date(i32),
    Timestamp(i64),
    TimestampNtz(i64),
    Null(PrimitiveType),
}

impl ScalarView {
    pub open spec fn data_type(self) -> PrimitiveType {
        match self {
            ScalarView::Integer(_) => PrimitiveType::Integer,
            ScalarView::Long(_) => PrimitiveType::Long,
            ScalarView::Short(_) => PrimitiveType::Short,
            ScalarView::Byte(_) => PrimitiveType::Byte,
            ScalarView::Boolean(_) => PrimitiveType::Boolean,
            ScalarView::String(_) => PrimitiveType::String,
            ScalarView::Date(_) => PrimitiveType::Date,
            ScalarView::Timestamp(_) => PrimitiveType::Timestamp,
            ScalarView::TimestampNtz(_) => PrimitiveType::TimestampNtz,
            ScalarView::Null(t) => t,
        }
    }

    pub open spec fn is_null(self) -> bool {
        self is Null
    }
}

impl View for Scalar {
    type V = ScalarView;

    open spec fn view(&self) -> ScalarView {
        match self {
            Scalar::Integer(v) => ScalarView::Integer(*v),
            Scalar::Long(v) => ScalarView::Long(*v),
            Scalar::Short(v) => ScalarView::Short(*v),
            Scalar::Byte(v) => ScalarView::Byte(*v),
            Scalar::Boolean(v) => ScalarView::Boolean(*v),
            Scalar::String(v) => ScalarView::String(v@),
            Scalar::Date(v) => ScalarView::Date(*v),
            Scalar::Timestamp(v) => ScalarView::Timestamp(*v),
            Scalar::TimestampNtz(v) => ScalarView::TimestampNtz(*v),
            Scalar::Null(t) => ScalarView::Null(*t),
        }
    }
}

impl DeepView for Scalar {
    type V = ScalarView;

    open spec fn deep_view(&self) -> ScalarView {
        self@
    }
}

impl Scalar {
    pub fn data_type(&self) -> (r: PrimitiveType)
        ensures
            r == self@.data_type(),
    {
        match self {
            Scalar::Integer(_) => PrimitiveType::Integer,
            Scalar::Long(_) => PrimitiveType::Long,
            Scalar::Short(_) => PrimitiveType::Short,
            Scalar::Byte(_) => PrimitiveType::Byte,
            Scalar::Boolean(_) => PrimitiveType::Boolean,
            Scalar::String(_) => PrimitiveType::String,
            Scalar::Date(_) => PrimitiveType::Date,
            Scalar::Timestamp(_) => PrimitiveType::Timestamp,
            Scalar::TimestampNtz(_) => PrimitiveType::TimestampNtz,
            Scalar::Null(t) => *t,
        }
    }

    pub fn is_null(&self) -> (r: bool)
        ensures
            r == self@.is_null(),
    {
        match self {
            Scalar::Null(_) => true,
            _ => false,
        }
    }
}

impl Clone for Scalar {
    fn clone(&self) -> (r: Scalar)
        ensures
            r@ == self@,
    {
        match self {
            Scalar::Integer(v) => Scalar::Integer(*v),
            Scalar::Long(v) => Scalar::Long(*v),
            Scalar::Short(v) => Scalar::Short(*v),
            Scalar::Byte(v) => Scalar::Byte(*v),
            Scalar::Boolean(v) => Scalar::Boolean(*v),
            Scalar::String(v) => Scalar::String(v.clone()),
            Scalar::Date(v) => Scalar::Date(*v),
            Scalar::Timestamp(v) => Scalar::Timestamp(*v),
            Scalar::TimestampNtz(v) => Scalar::TimestampNtz(*v),
            Scalar::Null(t) => Scalar::Null(*t),
        }
    }
}

#[derive(Clone, Copy, Debug, PartialEq, Eq, Structural)]
pub enum UnaryOperator {
    Not,
    IsNull,
}

#[derive(Clone, Copy, Debug, PartialEq, Eq, Structural)]
pub enum BinaryOperator {
    LessThan,
    LessThanOrEqual,
    GreaterThan,
    GreaterThanOrEqual,
    Equal,
    NotEqual,
}

#[derive(Clone, Copy, Debug, PartialEq, Eq, Structural)]
pub enum VariadicOperator {
    And,
    Or,
}

/// An expression over the columns of a batch.
#[derive(Debug, PartialEq, Eq)]
pub enum Expression {
    Literal(Scalar),
    Column(ColumnName),
    /// A struct whose fields are the values of the given expressions, in order.
    Struct(Vec<Expression>),
    Unary(UnaryOperator, Box<Expression>),
    Binary(BinaryOperator, Box<Expression>, Box<Expression>),
    Variadic(VariadicOperator, Vec<Expression>),
}

/// The mathematical value of an [`Expression`].
pub enum ExprView {
    Literal(ScalarView),
    Column(Seq<Seq<char>>),
    Struct(Seq<ExprView>),
    Unary(UnaryOperator, Box<ExprView>),
    Binary(BinaryOperator, Box<ExprView>, Box<ExprView>),
    Variadic(VariadicOperator, Seq<ExprView>),
}

pub open spec fn expr_view(e: Expression) -> ExprView
    decreases e,
{
    match e {
        Expression::Literal(s) => ExprView::Literal(s@),
        Expression::Column(c) => ExprView::Column(c@),
        Expression::Struct(es) => ExprView::Struct(
            Seq::new(
                es.len() as nat,
                |i: int|
                    if 0 <= i < es.len() {
                        expr_view(es[i])
                    } else {
                        arbitrary()
                    },
            ),
        ),
        Expression::Unary(op, a) => ExprView::Unary(op, Box::new(expr_view(*a))),
        Expression::Binary(op, a, b) => ExprView::Binary(
            op,
            Box::new(expr_view(*a)),
            Box::new(expr_view(*b)),
        ),
        Expression::Variadic(op, es) => ExprView::Variadic(
            op,
            Seq::new(
                es.len() as nat,
                |i: int|
                    if 0 <= i < es.len() {
                        expr_view(es[i])
                    } else {
                        arbitrary()
                    },
            ),
        ),
    }
}

impl View for Expression {
    type V = ExprView;

    open spec fn view(&self) -> ExprView {
        expr_view(*self)
    }
}

impl DeepView for Expression {
    type V = ExprView;

    open spec fn deep_view(&self) -> ExprView {
        expr_view(*self)
    }
}

/// The views of a list of expressions, in order.
pub open spec fn expr_views(es: Seq<Expression>) -> Seq<ExprView> {
    es.map_values(|e: Expression| e@)
}

/// A copy of every expression of `es`, in order.
pub fn clone_expressions(es: &Vec<Expression>) -> (r: Vec<Expression>)
    ensures
        expr_views(r@) == expr_views(es@),
    decreases es, 0nat,
{
    let mut out: Vec<Expression> = Vec::new();
    let mut i: usize = 0;
    while i < es.len()
        invariant
            i <= es.len(),
            out.len() == i,
            forall|j: int| 0 <= j < i ==> out[j]@ == es[j]@,
        decreases es.len() - i,
    {
        out.push(es[i].clone());
        i += 1;
    }
    assert(expr_views(out@) =~= expr_views(es@));
    out
}

impl Clone for Expression {
    fn clone(&self) -> (r: Expression)
        ensures
            r@ == self@,
        decreases self, 1nat,
    {
        match self {
            Expression::Literal(s) => Expression::Literal(s.clone()),
            Expression::Column(c) => Expression::Column(c.clone()),
            Expression::Struct(es) => {
                let out = clone_expressions(es);
                let r = Expression::Struct(out);
                assert(r@->Struct_0 =~= expr_views(out@));
                assert(self@->Struct_0 =~= expr_views(es@));
                r
            },
            Expression::Unary(op, a) => Expression::Unary(*op, Box::new((&**a).clone())),
            Expression::Binary(op, a, b) => Expression::Binary(
                *op,
                Box::new((&**a).clone()),
                Box::new((&**b).clone()),
            ),
            Expression::Variadic(op, es) => {
                let out = clone_expressions(es);
                let r = Expression::Variadic(*op, out);
                assert(r@->Variadic_1 =~= expr_views(out@));
                assert(self@->Variadic_1 =~= expr_views(es@));
                r
            },
        }
    }
}

/// One slot of a [`Transform`].
#[derive(Debug, PartialEq, Eq)]
pub enum TransformExpr {
    /// The slot is the partition value of the logical field with this index.
    Partition(usize),
    /// The slot is this expression, whatever the file.
    Static(Expression),
}

/// The mathematical value of a [`TransformExpr`].
pub enum TransformExprView {
    Partition(usize),
    Static(ExprView),
}

impl View for TransformExpr {
    type V = TransformExprView;

    open spec fn view(&self) -> TransformExprView {
        match self {
            TransformExpr::Partition(i) => TransformExprView::Partition(*i),
            TransformExpr::Static(e) => TransformExprView::Static(e@),
        }
    }
}

impl DeepView for TransformExpr {
    type V = TransformExprView;

    open spec fn deep_view(&self) -> TransformExprView {
        self@
    }
}

/// The recipe that maps the physical columns of a data file to the logical
/// schema: one slot for each logical field, in order.
pub type Transform = Vec<TransformExpr>;

/// The views of the slots of a transform, in order.
pub open spec fn transform_view(t: Seq<TransformExpr>) -> Seq<TransformExprView> {
    t.map_values(|e: TransformExpr| e@)
}

} // verus!
