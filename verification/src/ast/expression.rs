//! Scalar expressions.

use crate::numbers::{Real, RealView};
use crate::spans::{MBox, Span, M};
use vstd::prelude::*;

verus! {

/// The operator between the two operands of a binary expression.
#[derive(Debug, Clone, Copy, PartialEq, Eq, Structural)]
pub enum BinaryOp {
    /// Add "+"
    Add,
    /// Subtract "-"
    Sub,
    /// Multiply "*"
    Mul,
    /// Divide "/"
    Div,
    /// Modulo "%"
    Mod,
    /// Logical And "and"
    LogicalAnd,
    /// Logical Or "or"
    LogicalOr,
    /// Less Than "<"
    LT,
    /// Greater Than ">"
    GT,
    /// Equal "=="
    EQ,
    /// Not Equal "!="
    NEQ,
    /// Less Than or Equal "<="
    LTE,
    /// Greater Than or Equal ">="
    GTE,
}

impl DeepView for BinaryOp {
    type V = BinaryOp;

    open spec fn deep_view(&self) -> BinaryOp {
        *self
    }
}

/// A constant. A payload of `None` is the null of that type; there is no
/// null string.
#[derive(Debug, Clone, PartialEq)]
pub enum Literal {
    Bool(Option<bool>),
    Int(Option<i32>),
    Long(Option<i64>),
    Real(Option<Real>),
    String(String),
}

/// The view of [`Literal`]: the same value, with sequences for its strings and vectors.
pub enum LiteralView {
    Bool(Option<bool>),
    Int(Option<i32>),
    Long(Option<i64>),
    Real(Option<RealView>),
    String(Seq<char>),
}

impl DeepView for Literal {
    type V = LiteralView;

    open spec fn deep_view(&self) -> LiteralView {
        match self {
            Literal::Bool(v) => LiteralView::Bool(*v),
            Literal::Int(v) => LiteralView::Int(*v),
            Literal::Long(v) => LiteralView::Long(*v),
            Literal::Real(v) => LiteralView::Real(v.deep_view()),
            Literal::String(v) => LiteralView::String(v@),
        }
    }
}

/// A scalar expression.
#[derive(Debug, PartialEq)]
pub enum Expression {
    Identifier { name: M<String> },
    FuncCall {
        name: M<String>,
        open_paren_sym: Span,
        args: Vec<MBox<Expression>>,
        close_paren_sym: Span,
    },
    BinaryOp { left: MBox<Expression>, op: M<BinaryOp>, right: MBox<Expression> },
    Literal { value: Literal },
}

/// The view of [`Expression`]: the same value, with sequences for its strings and vectors.
pub enum ExpressionView {
    Identifier { name: M<Seq<char>> },
    FuncCall {
        name: M<Seq<char>>,
        open_paren_sym: Span,
        args: Seq<MBox<ExpressionView>>,
        close_paren_sym: Span,
    },
    BinaryOp { left: MBox<ExpressionView>, op: M<BinaryOp>, right: MBox<ExpressionView> },
    Literal { value: LiteralView },
}

impl Expression {
    pub open spec fn model(&self) -> ExpressionView
        decreases self,
    {
        match self {
            Expression::Identifier { name } => ExpressionView::Identifier { name: name.deep_view() },
            Expression::FuncCall { name, open_paren_sym, args, close_paren_sym } => {
                ExpressionView::FuncCall {
                    name: name.deep_view(),
                    open_paren_sym: *open_paren_sym,
                    args: Seq::new(
                        args@.len(),
                        |i: int|
                            if 0 <= i < args@.len() {
                                MBox { span: args@[i].span, value: Box::new(args@[i].value.model()) }
                            } else {
                                arbitrary()
                            },
                    ),
                    close_paren_sym: *close_paren_sym,
                }
            },
            Expression::BinaryOp { left, op, right } => ExpressionView::BinaryOp {
                left: MBox { span: left.span, value: Box::new(left.value.model()) },
                op: *op,
                right: MBox { span: right.span, value: Box::new(right.value.model()) },
            },
            Expression::Literal { value } => ExpressionView::Literal { value: value.deep_view() },
        }
    }
}

impl DeepView for Expression {
    type V = ExpressionView;

    open spec fn deep_view(&self) -> ExpressionView {
        self.model()
    }
}

} // verus!
