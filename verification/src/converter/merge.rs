//! Folding a projection into a statement that still selects everything.

use crate::ast::query::{ColumnDefinitionView, TabularOperator, TabularOperatorView};
use crate::converter::ktos::{ktos_column_definition, named_column, names_column};
use crate::converter::ConverterError;
use crate::sql::ast as sast;
use vstd::prelude::*;

verus! {

/// Whether an operator was folded into a statement.
#[derive(Debug, Clone, Copy, PartialEq, Eq, Structural)]
pub enum MergeOutcome {
    Combined,
    CannotCombine,
}

/// Folds a projection whose definitions only name columns into `head`.
///
/// A head that selects everything selects the named columns afterwards, and
/// nothing else of it changes. A head that selects columns already stays as
/// it is: the projection cannot be combined with it.
pub fn attempt_merge(head: &mut sast::SelectStatement, operator: &TabularOperator) -> (result:
    Result<MergeOutcome, ConverterError>)
    requires
        operator.deep_view() matches TabularOperatorView::Project { columns } && forall|i: int|
            0 <= i < columns.len() ==> names_column(#[trigger] columns[i]),
    ensures
        old(head).deep_view().select.wildcard ==> result == Ok::<MergeOutcome, ConverterError>(
            MergeOutcome::Combined,
        ) && final(head).deep_view() == (sast::SelectStatementView {
            select: sast::SelectListView {
                wildcard: false,
                columns: operator.deep_view()->Project_columns.map_values(
                    |column: ColumnDefinitionView| named_column(column),
                ),
            },
            ..old(head).deep_view()
        }),
        !old(head).deep_view().select.wildcard ==> result == Ok::<MergeOutcome, ConverterError>(
            MergeOutcome::CannotCombine,
        ) && final(head).deep_view() == old(head).deep_view(),
{
    match operator {
        TabularOperator::Project { columns } => {
            if !head.select.wildcard {
                return Ok(MergeOutcome::CannotCombine);
            }
            let ghost definitions = columns.deep_view();
            let ghost wanted = definitions.map_values(
                |column: ColumnDefinitionView| named_column(column),
            );
            let mut fields: Vec<sast::SelectColumn> = Vec::new();
            let mut i: usize = 0;
            assert(fields.deep_view() =~= wanted.take(0));
            while i < columns.len()
                invariant
                    i <= columns.len(),
                    definitions == columns.deep_view(),
                    wanted == definitions.map_values(
                        |column: ColumnDefinitionView| named_column(column),
                    ),
                    forall|k: int| 0 <= k < definitions.len() ==> names_column(
                        #[trigger] definitions[k],
                    ),
                    fields.deep_view() == wanted.take(i as int),
                decreases columns.len() - i,
            {
                let ghost before = fields.deep_view();
                assert(definitions[i as int] == columns@[i as int].deep_view());
                match ktos_column_definition(&columns[i]) {
                    Ok(field) => {
                        fields.push(field);
                        assert(fields.deep_view() =~= before.push(wanted[i as int]));
                        assert(wanted.take(i + 1) =~= before.push(wanted[i as int]));
                    },
                    Err(error) => {
                        return Err(error);
                    },
                }
                i += 1;
            }
            assert(wanted.take(wanted.len() as int) =~= wanted);
            head.select = sast::SelectList { wildcard: false, columns: fields };
            Ok(MergeOutcome::Combined)
        },
        _ => unreached(),
    }
}

} // verus!
