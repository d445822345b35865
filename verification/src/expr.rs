//! The expression tree that the SQL front-end produces.

use vstd::prelude::*;

verus! {

#[derive(Clone, Copy, Debug, PartialEq, Eq, Hash, Structural)]
pub enum BinaryOperator {
    Or,
    And,
    Eq,
    NotEq,
    Lt,
    LtEq,
    Gt,
    GtEq,
    Plus,
    Minus,
    Multiply,
    Divide,
}

#[derive(Clone, Copy, Debug, PartialEq, Eq, Hash, Structural)]
pub enum UnaryOperator {
    Not,
    Neg,
}

/// A literal of the query text.
///
/// A floating-point literal is kept as it was written: its digits, with the
/// sign, the decimal point and the exponent.
#[derive(Clone, Debug, PartialEq, Eq)]
pub enum Literal {
    Boolean(bool),
    Int(i64),
    Float(String),
    String(String),
}

/// The mathematical value of a [`Literal`].
pub enum LiteralView {
    Boolean(bool),
    Int(i64),
    Float(Seq<char>),
    String(Seq<char>),
}

impl View for Literal {
    type V = LiteralView;

    open spec fn view(&self) -> LiteralView {
        match *self {
            Literal::Boolean(v) => LiteralView::Boolean(v),
            Literal::Int(v) => LiteralView::Int(v),
            Literal::Float(v) => LiteralView::Float(v@),
            Literal::String(v) => LiteralView::String(v@),
        }
    }
}

/// The view of an optional string.
pub open spec fn text_view(text: Option<String>) -> Option<Seq<char>> {
    match text {
        Some(s) => Some(s@),
        None => None,
    }
}

#[derive(Debug, PartialEq, Eq)]
pub enum Expr {
    Column { qualifier: Option<String>, name: String },
    Wildcard { qualifier: Option<String> },
    Literal(Literal),
    Unary { op: UnaryOperator, expr: Box<Expr> },
    Binary { op: BinaryOperator, lhs: Box<Expr>, rhs: Box<Expr> },
    Call { namespace: Option<String>, name: String, args: Vec<Expr> },
    Alias { expr: Box<Expr>, alias: String },
}

/// The mathematical value of an [`Expr`].
pub enum ExprView {
    Column { qualifier: Option<Seq<char>>, name: Seq<char> },
    Wildcard { qualifier: Option<Seq<char>> },
    Literal(LiteralView),
    Unary { op: UnaryOperator, expr: Box<ExprView> },
    Binary { op: BinaryOperator, lhs: Box<ExprView>, rhs: Box<ExprView> },
    Call { namespace: Option<Seq<char>>, name: Seq<char>, args: Seq<ExprView> },
    Alias { expr: Box<ExprView>, alias: Seq<char> },
}

/// The mathematical value of an expression tree.
pub open spec fn expr_view(e: Expr) -> ExprView
    decreases e,
{
    match e {
        Expr::Column { qualifier, name } => ExprView::Column {
            qualifier: text_view(qualifier),
            name: name@,
        },
        Expr::Wildcard { qualifier } => ExprView::Wildcard { qualifier: text_view(qualifier) },
        Expr::Literal(literal) => ExprView::Literal(literal@),
        Expr::Unary { op, expr } => ExprView::Unary { op, expr: Box::new(expr_view(*expr)) },
        Expr::Binary { op, lhs, rhs } => ExprView::Binary {
            op,
            lhs: Box::new(expr_view(*lhs)),
            rhs: Box::new(expr_view(*rhs)),
        },
        Expr::Call { namespace, name, args } => ExprView::Call {
            namespace: text_view(namespace),
            name: name@,
            args: Seq::new(
                args@.len(),
                |i: int|
                    if 0 <= i < args@.len() {
                        expr_view(args@[i])
                    } else {
                        arbitrary()
                    },
            ),
        },
        Expr::Alias { expr, alias } => ExprView::Alias {
            expr: Box::new(expr_view(*expr)),
            alias: alias@,
        },
    }
}

impl View for Expr {
    type V = ExprView;

    open spec fn view(&self) -> ExprView {
        expr_view(*self)
    }
}

impl Expr {
    /// The comparison `self > rhs`.
    pub fn gt(self, rhs: Expr) -> (e: Expr)
        ensures
            e == (Expr::Binary { op: BinaryOperator::Gt, lhs: Box::new(self), rhs: Box::new(rhs) }),
    {
        Expr::Binary { op: BinaryOperator::Gt, lhs: Box::new(self), rhs: Box::new(rhs) }
    }

    /// This expression under another name.
    pub fn alias(self, alias: String) -> (e: Expr)
        ensures
            e == (Expr::Alias { expr: Box::new(self), alias }),
    {
        Expr::Alias { expr: Box::new(self), alias }
    }
}

impl std::ops::Add for Expr {
    type Output = Expr;

    fn add(self, rhs: Expr) -> (sum: Expr) {
        Expr::Binary { op: BinaryOperator::Plus, lhs: Box::new(self), rhs: Box::new(rhs) }
    }
}

impl vstd::std_specs::ops::AddSpecImpl for Expr {
    open spec fn obeys_add_spec() -> bool {
        true
    }

    open spec fn add_req(self, rhs: Expr) -> bool {
        true
    }

    open spec fn add_spec(self, rhs: Expr) -> Expr {
        Expr::Binary { op: BinaryOperator::Plus, lhs: Box::new(self), rhs: Box::new(rhs) }
    }
}

impl std::ops::Div for Expr {
    type Output = Expr;

    fn div(self, rhs: Expr) -> (quotient: Expr) {
        Expr::Binary { op: BinaryOperator::Divide, lhs: Box::new(self), rhs: Box::new(rhs) }
    }
}

impl vstd::std_specs::ops::DivSpecImpl for Expr {
    open spec fn obeys_div_spec() -> bool {
        true
    }

    open spec fn div_req(self, rhs: Expr) -> bool {
        true
    }

    open spec fn div_spec(self, rhs: Expr) -> Expr {
        Expr::Binary { op: BinaryOperator::Divide, lhs: Box::new(self), rhs: Box::new(rhs) }
    }
}

} // verus!
