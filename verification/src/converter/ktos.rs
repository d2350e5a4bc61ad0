//! Column definitions that only name columns.

use crate::ast::expression::Expression;
use crate::ast::query::{ColumnDefinition, ColumnDefinitionView};
use crate::converter::{ConverterError, ConverterErrorView};
use crate::results::result_view;
use crate::sql::ast as sast;
use vstd::prelude::*;

verus! {

/// Whether a column definition does no more than name a column: it has no
/// expression, or its expression is an identifier.
pub open spec fn names_column(column: ColumnDefinitionView) -> bool {
    match column.expr {
        Some(expr) => *expr.value is Identifier,
        None => true,
    }
}

/// The selected column for a definition that names a column: the column
/// named, under the name of the definition.
pub open spec fn named_column(column: ColumnDefinitionView) -> sast::SelectColumnView {
    sast::SelectColumnView {
        value: sast::ValueExpressionView::Column {
            name: match column.expr {
                Some(expr) => (*expr.value)->Identifier_name.value,
                None => column.column.value,
            },
        },
        alias: Some(column.column.value),
    }
}

pub fn ktos_column_definition(column: &ColumnDefinition) -> (result: Result<
    sast::SelectColumn,
    ConverterError,
>)
    requires
        names_column(column.deep_view()),
    ensures
        result_view(result) == Ok::<sast::SelectColumnView, ConverterErrorView>(
            named_column(column.deep_view()),
        ),
{
    let name = &column.column.value;

    let value = match &column.expr {
        Some(k_expr) => ktos_expression(&k_expr.value)?,
        None => Box::new(sast::ValueExpression::Column { name: name.clone() }),
    };
    Ok(sast::SelectColumn { value, alias: Some(name.clone()) })
}

pub fn ktos_expression(expr: &Expression) -> (result: Result<
    Box<sast::ValueExpression>,
    ConverterError,
>)
    requires
        expr is Identifier,
    ensures
        result_view(result) == Ok::<sast::ValueExpressionView, ConverterErrorView>(
            sast::ValueExpressionView::Column { name: expr.deep_view()->Identifier_name.value },
        ),
{
    let value = match expr {
        Expression::Identifier { name } => sast::ValueExpression::Column {
            name: name.value.clone(),
        },
        _ => unreached(),
    };

    Ok(Box::new(value))
}

} // verus!
