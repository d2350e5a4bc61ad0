//! Conversion of expressions and column definitions.

use crate::ast::expression::{BinaryOp, Expression, ExpressionView, Literal, LiteralView};
use crate::ast::query::{ColumnDefinition, ColumnDefinitionView};
use crate::converter::{ConverterError, ConverterErrorView};
use crate::results::{collected, lemma_collected_error, result_view};
use crate::spans::{MBox, M};
use crate::sql::ast as sast;
use vstd::prelude::*;

verus! {

/// The SQL constant for a KQL one. An `int` becomes an integer of the same
/// value; a null stays the null of its type.
pub open spec fn literal_value(value: LiteralView) -> sast::LiteralView {
    match value {
        LiteralView::Bool(v) => sast::LiteralView::Bool(v),
        LiteralView::Int(Some(v)) => sast::LiteralView::Integer(Some(v as i64)),
        LiteralView::Int(None) => sast::LiteralView::Integer(None),
        LiteralView::Long(v) => sast::LiteralView::Integer(v),
        LiteralView::Real(v) => sast::LiteralView::Real(v),
        LiteralView::String(v) => sast::LiteralView::String(v),
    }
}

/// The SQL operator for an arithmetic KQL operator other than `%`.
pub open spec fn arithmetic_operator(op: BinaryOp) -> Option<sast::ArithmeticOperator> {
    match op {
        BinaryOp::Add => Some(sast::ArithmeticOperator::Add),
        BinaryOp::Sub => Some(sast::ArithmeticOperator::Sub),
        BinaryOp::Mul => Some(sast::ArithmeticOperator::Mul),
        BinaryOp::Div => Some(sast::ArithmeticOperator::Div),
        _ => None,
    }
}

/// What is reported for an operator that has no place in a value.
pub open spec fn unsupported_in_value(op: BinaryOp) -> Seq<char> {
    match op {
        BinaryOp::Mod => "modulo operator"@,
        BinaryOp::LogicalAnd | BinaryOp::LogicalOr => "logical operator in a value expression"@,
        _ => "comparison operator in a value expression"@,
    }
}

/// The SQL value expression for a KQL expression.
///
/// An identifier is a column, a call keeps its name and converts its
/// arguments, `+ - * /` stay what they are, and a constant stays a constant.
/// Any other operator is not implemented; the error names the operator's
/// span. Of several errors the leftmost operand's comes first.
pub open spec fn value_expression(expr: ExpressionView) -> Result<
    sast::ValueExpressionView,
    ConverterErrorView,
>
    decreases expr, 0nat,
{
    match expr {
        ExpressionView::Identifier { name } => Ok(
            sast::ValueExpressionView::Column { name: name.value },
        ),
        ExpressionView::FuncCall { name, open_paren_sym: _, args, close_paren_sym: _ } => {
            match collected(value_expressions(args)) {
                Ok(values) => Ok(
                    sast::ValueExpressionView::FuncCall { name: name.value, args: values },
                ),
                Err(error) => Err(error),
            }
        },
        ExpressionView::BinaryOp { left, op, right } => match value_expression(*left.value) {
            Err(error) => Err(error),
            Ok(left_value) => match value_expression(*right.value) {
                Err(error) => Err(error),
                Ok(right_value) => match arithmetic_operator(op.value) {
                    Some(operator) => Ok(
                        sast::ValueExpressionView::ArithmeticExpr {
                            left: Box::new(left_value),
                            op: operator,
                            right: Box::new(right_value),
                        },
                    ),
                    None => Err(
                        ConverterErrorView::NotImplemented {
                            span: op.span,
                            feature: unsupported_in_value(op.value),
                        },
                    ),
                },
            },
        },
        ExpressionView::Literal { value } => Ok(
            sast::ValueExpressionView::Literal { value: literal_value(value) },
        ),
    }
}

/// The conversion of each expression of a list.
pub open spec fn value_expressions(exprs: Seq<MBox<ExpressionView>>) -> Seq<
    Result<sast::ValueExpressionView, ConverterErrorView>,
>
    decreases exprs, 1nat,
{
    Seq::new(
        exprs.len(),
        |i: int|
            if 0 <= i < exprs.len() {
                value_expression(*exprs[i].value)
            } else {
                arbitrary()
            },
    )
}

/// The selected column for a column definition: the column itself, or the
/// converted expression under the column's name.
pub open spec fn select_column(column: ColumnDefinitionView) -> Result<
    sast::SelectColumnView,
    ConverterErrorView,
> {
    match column.expr {
        Some(expr) => match value_expression(*expr.value) {
            Ok(value) => Ok(sast::SelectColumnView { value, alias: Some(column.column.value) }),
            Err(error) => Err(error),
        },
        None => Ok(
            sast::SelectColumnView {
                value: sast::ValueExpressionView::Column { name: column.column.value },
                alias: None,
            },
        ),
    }
}

fn not_implemented(op: M<BinaryOp>) -> (error: ConverterError)
    requires
        arithmetic_operator(op.value) is None,
    ensures
        error.deep_view() == (ConverterErrorView::NotImplemented {
            span: op.span,
            feature: unsupported_in_value(op.value),
        }),
{
    let feature = match op.value {
        BinaryOp::Mod => "modulo operator",
        BinaryOp::LogicalAnd | BinaryOp::LogicalOr => "logical operator in a value expression",
        _ => "comparison operator in a value expression",
    };
    ConverterError::NotImplemented { span: op.span, feature: String::from_str(feature) }
}

pub fn expression(expr: Expression) -> (result: Result<Box<sast::ValueExpression>, ConverterError>)
    ensures
        result_view(result) == value_expression(expr.deep_view()),
    decreases expr,
{
    let value = match expr {
        Expression::Identifier { name } => sast::ValueExpression::Column { name: name.value },
        Expression::FuncCall { name, open_paren_sym: _, args, close_paren_sym: _ } => {
            let ghost model = expr.deep_view()->FuncCall_args;
            let ghost results = value_expressions(model);
            let mut values: Vec<Box<sast::ValueExpression>> = Vec::new();
            assert(results.take(0) =~= Seq::empty());
            assert(values.deep_view() =~= Seq::empty());
            for arg in it: args
                invariant
                    expr is FuncCall,
                    it.seq() == expr->FuncCall_args@,
                    model == expr.deep_view()->FuncCall_args,
                    results == value_expressions(model),
                    results.len() == it.seq().len(),
                    collected(results.take(it.index() as int)) == Ok::<
                        Seq<sast::ValueExpressionView>,
                        ConverterErrorView,
                    >(values.deep_view()),
            {
                let ghost i = it.index() as int;
                assert(results.take(i + 1).drop_last() =~= results.take(i));
                assert(model[i] == arg.deep_view());
                match expression(*arg.value) {
                    Ok(value) => {
                        let ghost before = values.deep_view();
                        values.push(value);
                        assert(values.deep_view() =~= before.push(value.deep_view()));
                    },
                    Err(error) => {
                        proof {
                            lemma_collected_error(results, i + 1);
                        }
                        return Err(error);
                    },
                }
            }
            assert(results.take(results.len() as int) =~= results);
            let ghost converted = values.deep_view();
            let call = sast::ValueExpression::FuncCall { name: name.value, args: values };
            assert(call.deep_view()->FuncCall_args =~= converted);
            call
        },
        Expression::BinaryOp { left, op, right } => {
            let left = expression(*left.value)?;
            let right = expression(*right.value)?;
            let operator = match op.value {
                BinaryOp::Add => sast::ArithmeticOperator::Add,
                BinaryOp::Sub => sast::ArithmeticOperator::Sub,
                BinaryOp::Mul => sast::ArithmeticOperator::Mul,
                BinaryOp::Div => sast::ArithmeticOperator::Div,
                _ => {
                    return Err(not_implemented(op));
                },
            };
            sast::ValueExpression::ArithmeticExpr { left, op: operator, right }
        },
        Expression::Literal { value } => {
            let literal = match value {
                Literal::Bool(v) => sast::Literal::Bool(v),
                Literal::Int(Some(v)) => sast::Literal::Integer(Some(v as i64)),
                Literal::Int(None) => sast::Literal::Integer(None),
                Literal::Long(v) => sast::Literal::Integer(v),
                Literal::Real(v) => sast::Literal::Real(v),
                Literal::String(v) => sast::Literal::String(v),
            };
            sast::ValueExpression::Literal { value: literal }
        },
    };
    Ok(Box::new(value))
}

pub fn column_definition(column: ColumnDefinition) -> (result: Result<
    sast::SelectColumn,
    ConverterError,
>)
    ensures
        result_view(result) == select_column(column.deep_view()),
{
    let name = column.column.value;
    let def = match column.expr {
        Some(k_expr) => sast::SelectColumn { value: expression(*k_expr.value)?, alias: Some(name) },
        None => sast::SelectColumn {
            value: Box::new(sast::ValueExpression::Column { name }),
            alias: None,
        },
    };
    Ok(def)
}

} // verus!
