//! Folding operators into a `SELECT` statement, or wrapping it.
//!
//! Each operator either changes the statement at hand, the head, or makes
//! the head the source of a new statement and changes that one. Which of the
//! two happens depends on what the head already holds and on the columns it
//! yields.

use crate::ast::expression::{BinaryOp, Expression, ExpressionView};
use crate::ast::query::{ColumnDefinition, ColumnDefinitionView, TabularOperator, TabularOperatorView};
use crate::converter::direct::{column_definition, expression, select_column, value_expression};
use crate::converter::{ConverterError, ConverterErrorView};
use crate::results::{collected, lemma_collected_error, result_view};
use crate::spans::{MBox, Span, M};
use crate::sql::ast as sast;
use vstd::prelude::*;

verus! {

/// What is known of the columns that the head yields.
#[derive(Debug, PartialEq, Eq)]
pub enum ColumnsState {
    /// Those of the table, unchanged.
    Unmodified,
    /// Some of those of the table.
    Limited { columns: Vec<String> },
    /// Some of those of the table, and some computed under a new name.
    Modified { retained: Vec<String>, modified: Vec<String> },
}

/// The view of [`ColumnsState`]: the same value, with sequences for its strings and vectors.
pub enum ColumnsStateView {
    Unmodified,
    Limited { columns: Seq<Seq<char>> },
    Modified { retained: Seq<Seq<char>>, modified: Seq<Seq<char>> },
}

impl DeepView for ColumnsState {
    type V = ColumnsStateView;

    open spec fn deep_view(&self) -> ColumnsStateView {
        match self {
            ColumnsState::Unmodified => ColumnsStateView::Unmodified,
            ColumnsState::Limited { columns } => ColumnsStateView::Limited {
                columns: columns.deep_view(),
            },
            ColumnsState::Modified { retained, modified } => ColumnsStateView::Modified {
                retained: retained.deep_view(),
                modified: modified.deep_view(),
            },
        }
    }
}

impl Default for ColumnsState {
    fn default() -> (state: ColumnsState)
        ensures
            state == ColumnsState::Unmodified,
    {
        ColumnsState::Unmodified
    }
}

/// The SQL operator for a comparison.
pub open spec fn comparison_operator(op: BinaryOp) -> Option<sast::ComparisonOperator> {
    match op {
        BinaryOp::LT => Some(sast::ComparisonOperator::LT),
        BinaryOp::GT => Some(sast::ComparisonOperator::GT),
        BinaryOp::EQ => Some(sast::ComparisonOperator::EQ),
        BinaryOp::NEQ => Some(sast::ComparisonOperator::NEQ),
        BinaryOp::LTE => Some(sast::ComparisonOperator::LTE),
        BinaryOp::GTE => Some(sast::ComparisonOperator::GTE),
        _ => None,
    }
}

/// The SQL condition for a KQL expression.
///
/// `and` and `or` join two conditions, a comparison compares two values.
/// Anything else is no condition; the error names the span of the whole
/// expression. Of several errors the leftmost operand's comes first.
pub open spec fn search_condition(expr: MBox<ExpressionView>) -> Result<
    sast::SearchConditionView,
    ConverterErrorView,
>
    decreases expr,
{
    match *expr.value {
        ExpressionView::BinaryOp { left, op, right } => match op.value {
            BinaryOp::LogicalAnd | BinaryOp::LogicalOr => match search_condition(left) {
                Err(error) => Err(error),
                Ok(left_cond) => match search_condition(right) {
                    Err(error) => Err(error),
                    Ok(right_cond) => Ok(
                        sast::SearchConditionView::BoolExpr {
                            left: Box::new(left_cond),
                            op: if op.value == BinaryOp::LogicalAnd {
                                sast::BoolOperator::AND
                            } else {
                                sast::BoolOperator::OR
                            },
                            right: Box::new(right_cond),
                        },
                    ),
                },
            },
            _ => match comparison_operator(op.value) {
                Some(operator) => match value_expression(*left.value) {
                    Err(error) => Err(error),
                    Ok(left_value) => match value_expression(*right.value) {
                        Err(error) => Err(error),
                        Ok(right_value) => Ok(
                            sast::SearchConditionView::ComparisonExpr {
                                left: left_value,
                                op: operator,
                                right: right_value,
                            },
                        ),
                    },
                },
                None => Err(ConverterErrorView::ExpressionNotCondition { span: expr.span }),
            },
        },
        _ => Err(ConverterErrorView::ExpressionNotCondition { span: expr.span }),
    }
}

/// The names of the columns that are computed (`computed`) or kept as they
/// are (`!computed`), in the order of their definitions.
pub open spec fn names_where(columns: Seq<ColumnDefinitionView>, computed: bool) -> Seq<Seq<char>>
    decreases columns.len(),
{
    if columns.len() == 0 {
        Seq::empty()
    } else {
        let rest = names_where(columns.drop_last(), computed);
        if (columns.last().expr is Some) == computed {
            rest.push(columns.last().column.value)
        } else {
            rest
        }
    }
}

/// The selected column of each definition.
pub open spec fn select_columns(columns: Seq<ColumnDefinitionView>) -> Seq<
    Result<sast::SelectColumnView, ConverterErrorView>,
> {
    columns.map_values(|column: ColumnDefinitionView| select_column(column))
}

/// Whether an operator cannot be folded into the head, so that the head has
/// to become the source of a new statement:
/// a limit, when the head has one already; a projection, unless the head
/// still yields the table's columns unchanged; a filter, when the head has
/// one already or reads a column that the head computes.
pub open spec fn must_wrap(
    state: ColumnsStateView,
    head: sast::SelectStatementView,
    operator: TabularOperatorView,
) -> bool {
    match operator {
        TabularOperatorView::Limit { limit: _ } => head.limit is Some,
        TabularOperatorView::Project { columns: _ } => !(state is Unmodified),
        TabularOperatorView::Where { expr } => head.where_ is Some || match (
            state,
            search_condition(expr),
        ) {
            (ColumnsStateView::Modified { retained: _, modified }, Ok(cond)) => cond.depends_on_any(
                modified,
            ),
            _ => false,
        },
        _ => false,
    }
}

/// The head that an operator is folded into: the old one, or a new one around it.
pub open spec fn base(head: sast::SelectStatementView, wrap: bool) -> sast::SelectStatementView {
    if wrap {
        sast::SelectStatementView::simple_wrapping(head)
    } else {
        head
    }
}

/// What an operator without a conversion is reported as.
pub open spec fn unconverted(operator: TabularOperatorView) -> Option<Seq<char>> {
    match operator {
        TabularOperatorView::Count => Some("count operator"@),
        TabularOperatorView::Distinct { .. } => Some("distinct operator"@),
        TabularOperatorView::Extend { .. } => Some("extend operator"@),
        TabularOperatorView::Join { .. } => Some("join operator"@),
        TabularOperatorView::Sort { .. } => Some("sort operator"@),
        TabularOperatorView::Summarize { .. } => Some("summarize operator"@),
        TabularOperatorView::Top { .. } => Some("top operator"@),
        _ => None,
    }
}

/// The columns state and the head after one operator.
///
/// A limit sets the head's limit. A projection replaces the select list by
/// its columns (added to the list of a head that is not wrapped), and the
/// state then names the columns kept and the columns computed. A filter
/// sets the head's condition; where it wraps, the state starts over. Every
/// other operator is not implemented; the error names the span of the
/// operator's name.
pub open spec fn merge_step(
    state: ColumnsStateView,
    head: sast::SelectStatementView,
    name: M<Seq<char>>,
    operator: TabularOperatorView,
) -> Result<(ColumnsStateView, sast::SelectStatementView), ConverterErrorView> {
    let wrap = must_wrap(state, head, operator);
    let target = base(head, wrap);
    match operator {
        TabularOperatorView::Limit { limit } => Ok(
            (state, sast::SelectStatementView { limit: Some(limit.value), ..target }),
        ),
        TabularOperatorView::Project { columns } => match collected(select_columns(columns)) {
            Err(error) => Err(error),
            Ok(new_columns) => Ok(
                (
                    ColumnsStateView::Modified {
                        retained: names_where(columns, false),
                        modified: names_where(columns, true),
                    },
                    sast::SelectStatementView {
                        select: sast::SelectListView {
                            wildcard: false,
                            columns: target.select.columns + new_columns,
                        },
                        ..target
                    },
                ),
            ),
        },
        TabularOperatorView::Where { expr } => match search_condition(expr) {
            Err(error) => Err(error),
            Ok(cond) => Ok(
                (
                    if wrap {
                        ColumnsStateView::Unmodified
                    } else {
                        state
                    },
                    sast::SelectStatementView { where_: Some(cond), ..target },
                ),
            ),
        },
        _ => Err(
            ConverterErrorView::NotImplemented {
                span: name.span,
                feature: unconverted(operator).unwrap(),
            },
        ),
    }
}

/// An operator that is folded in adds one level of nesting when it has to
/// wrap the head, and none when it has not.
pub proof fn lemma_merge_step_nesting(
    state: ColumnsStateView,
    head: sast::SelectStatementView,
    name: M<Seq<char>>,
    operator: TabularOperatorView,
)
    requires
        merge_step(state, head, name, operator) is Ok,
    ensures
        merge_step(state, head, name, operator)->Ok_0.1.nesting() == head.nesting() + if must_wrap(
            state,
            head,
            operator,
        ) {
            1nat
        } else {
            0nat
        },
        operator is Limit || operator is Project || operator is Where,
{
}

/// A filter that follows a projection of the table's own columns wraps the
/// head exactly when its condition reads a column that the projection
/// computes. A condition on columns that the projection only keeps, or on
/// columns of the table that it does not name, is folded in.
pub proof fn lemma_filter_after_projection(
    head: sast::SelectStatementView,
    project: M<Seq<char>>,
    columns: Seq<ColumnDefinitionView>,
    expr: MBox<ExpressionView>,
)
    requires
        head.where_ is None,
        merge_step(
            ColumnsStateView::Unmodified,
            head,
            project,
            TabularOperatorView::Project { columns },
        ) is Ok,
        search_condition(expr) is Ok,
    ensures
        ({
            let (state, projected) = merge_step(
                ColumnsStateView::Unmodified,
                head,
                project,
                TabularOperatorView::Project { columns },
            )->Ok_0;
            must_wrap(state, projected, TabularOperatorView::Where { expr }) == search_condition(
                expr,
            )->Ok_0.depends_on_any(names_where(columns, true))
        }),
{
}

/// Converts the operators of a query, one after the other.
#[derive(Debug)]
pub struct Merger {
    columns: ColumnsState,
}

impl DeepView for Merger {
    type V = ColumnsStateView;

    closed spec fn deep_view(&self) -> ColumnsStateView {
        self.columns.deep_view()
    }
}

impl Merger {
    pub fn new() -> (merger: Self)
        ensures
            merger.deep_view() == ColumnsStateView::Unmodified,
    {
        Merger { columns: ColumnsState::Unmodified }
    }

    fn reset_columns(&mut self)
        ensures
            final(self).deep_view() == ColumnsStateView::Unmodified,
    {
        self.columns = ColumnsState::default();
    }

    fn non_condition_expression(&self, span: Span) -> (error: ConverterError)
        ensures
            error.deep_view() == (ConverterErrorView::ExpressionNotCondition { span }),
    {
        ConverterError::ExpressionNotCondition { span }
    }

    fn not_yet_implemented<T>(&self, span: Span, feature: &str) -> (result: Result<
        T,
        ConverterError,
    >)
        ensures
            result matches Err(error) && error.deep_view() == (ConverterErrorView::NotImplemented {
                span,
                feature: feature@,
            }),
    {
        Err(ConverterError::NotImplemented { feature: String::from_str(feature), span })
    }

    /// Takes a SELECT statement and either modifies it to include the provided operator
    /// or creates a new SELECT statement wrapping the old one which does.
    pub fn merge_operator(
        self,
        head: sast::SelectStatement,
        name: M<String>,
        operator: TabularOperator,
    ) -> (result: Result<(Self, sast::SelectStatement), ConverterError>)
        ensures
            result_view(result) == merge_step(
                self.deep_view(),
                head.deep_view(),
                name.deep_view(),
                operator.deep_view(),
            ),
    {
        let mut merger = self;
        let mut head = head;
        match operator {
            TabularOperator::Count => merger.not_yet_implemented(name.span, "count operator"),
            TabularOperator::Distinct { columns: _ } => {
                merger.not_yet_implemented(name.span, "distinct operator")
            },
            TabularOperator::Extend { columns: _ } => {
                merger.not_yet_implemented(name.span, "extend operator")
            },
            TabularOperator::Join { params: _, right_table: _, attributes: _ } => {
                merger.not_yet_implemented(name.span, "join operator")
            },
            TabularOperator::Limit { limit } => {
                if head.limit.is_some() {
                    head = sast::SelectStatement::simple_wrapping(head);
                }
                head.limit = Some(limit.value);
                Ok((merger, head))
            },
            TabularOperator::Project { columns } => {
                let ghost definitions = columns.deep_view();
                // Compute column state
                let mut retained: Vec<String> = Vec::new();
                let mut modified: Vec<String> = Vec::new();
                let mut i: usize = 0;
                assert(definitions.take(0) =~= Seq::empty());
                assert(retained.deep_view() =~= Seq::empty());
                assert(modified.deep_view() =~= Seq::empty());
                while i < columns.len()
                    invariant
                        i <= columns.len(),
                        definitions == columns.deep_view(),
                        retained.deep_view() == names_where(definitions.take(i as int), false),
                        modified.deep_view() == names_where(definitions.take(i as int), true),
                    decreases columns.len() - i,
                {
                    let ghost kept = retained.deep_view();
                    let ghost computed = modified.deep_view();
                    assert(definitions.take(i + 1).drop_last() =~= definitions.take(i as int));
                    assert(definitions.take(i + 1).last() == columns@[i as int].deep_view());
                    if columns[i].expr.is_none() {
                        retained.push(columns[i].column.value.clone());
                        assert(retained.deep_view() =~= kept.push(columns@[i as int].column.value@));
                    } else {
                        modified.push(columns[i].column.value.clone());
                        assert(modified.deep_view() =~= computed.push(
                            columns@[i as int].column.value@,
                        ));
                    }
                    i += 1;
                }
                assert(definitions.take(definitions.len() as int) =~= definitions);
                let column_state = ColumnsState::Modified { retained, modified };
                // Compute SQL columns
                let ghost results = select_columns(definitions);
                let mut new_columns: Vec<sast::SelectColumn> = Vec::new();
                assert(results.take(0) =~= Seq::empty());
                assert(new_columns.deep_view() =~= Seq::empty());
                for column in it: columns
                    invariant
                        operator.deep_view() == (TabularOperatorView::Project {
                            columns: definitions,
                        }),
                        it.seq().len() == definitions.len(),
                        forall|k: int|
                            0 <= k < it.seq().len() ==> (#[trigger] it.seq()[k]).deep_view()
                                == definitions[k],
                        results == select_columns(definitions),
                        collected(results.take(it.index() as int)) == Ok::<
                            Seq<sast::SelectColumnView>,
                            ConverterErrorView,
                        >(new_columns.deep_view()),
                {
                    let ghost j = it.index() as int;
                    assert(results.take(j + 1).drop_last() =~= results.take(j));
                    assert(definitions[j] == column.deep_view());
                    match merger.to_select_column(column) {
                        Ok(converted) => {
                            let ghost before = new_columns.deep_view();
                            new_columns.push(converted);
                            assert(new_columns.deep_view() =~= before.push(converted.deep_view()));
                        },
                        Err(error) => {
                            proof {
                                assert(results.take(j + 1).last() == results[j]);
                                assert(results[j] == select_column(definitions[j]));
                                assert(collected(results.take(j + 1)) is Err);
                                lemma_collected_error(results, j + 1);
                            }
                            return Err(error);
                        },
                    }
                }
                assert(results.take(results.len() as int) =~= results);
                let ghost added = new_columns.deep_view();

                if matches!(merger.columns, ColumnsState::Unmodified) {
                    // Update head
                    let ghost listed = head.select.columns.deep_view();
                    head.select.wildcard = false;
                    head.select.columns.append(&mut new_columns);
                    assert(head.select.columns.deep_view() =~= listed + added);
                    // Update state
                    merger.columns = column_state;
                    Ok((merger, head))
                } else {
                    merger.columns = column_state;
                    let mut new_head = sast::SelectStatement::simple_wrapping(head);
                    new_head.select = sast::SelectList { wildcard: false, columns: new_columns };
                    assert(new_head.select.columns.deep_view() =~= Seq::empty() + added);
                    Ok((merger, new_head))
                }
            },
            TabularOperator::Sort { by_kwd: _, sortings: _ } => {
                merger.not_yet_implemented(name.span, "sort operator")
            },
            TabularOperator::Summarize { result_columns: _, by_kwd: _, grouping_columns: _ } => {
                merger.not_yet_implemented(name.span, "summarize operator")
            },
            TabularOperator::Top { limit: _, by_kwd: _, expr: _, order: _, nulls: _ } => {
                merger.not_yet_implemented(name.span, "top operator")
            },
            TabularOperator::Where { expr } => {
                let cond = merger.to_search_condition(expr)?;
                let needs_wrapping = head.where_.is_some() || if let ColumnsState::Modified {
                    retained: _,
                    modified,
                } = &merger.columns {
                    cond.depends_on_any(modified)
                } else {
                    false
                };

                if needs_wrapping {
                    merger.reset_columns();
                    head = sast::SelectStatement::simple_wrapping(head);
                }
                head.where_ = Some(cond);
                Ok((merger, head))
            },
        }
    }

    fn to_select_column(&self, column: ColumnDefinition) -> (result: Result<
        sast::SelectColumn,
        ConverterError,
    >)
        ensures
            result_view(result) == select_column(column.deep_view()),
    {
        column_definition(column)
    }

    pub fn to_value_expression(&self, expr: MBox<Expression>) -> (result: Result<
        Box<sast::ValueExpression>,
        ConverterError,
    >)
        ensures
            result_view(result) == value_expression(*expr.deep_view().value),
    {
        expression(*expr.value)
    }

    fn to_search_condition(&self, expr: MBox<Expression>) -> (result: Result<
        Box<sast::SearchCondition>,
        ConverterError,
    >)
        ensures
            result_view(result) == search_condition(expr.deep_view()),
        decreases expr,
    {
        let span = expr.span;
        let cond: sast::SearchCondition = match *expr.value {
            Expression::Identifier { .. } | Expression::FuncCall { .. } | Expression::Literal {
                ..
            } => {
                return Err(self.non_condition_expression(span));
            },
            Expression::BinaryOp { left, op, right } => match op.value {
                BinaryOp::Add | BinaryOp::Sub | BinaryOp::Mul | BinaryOp::Div | BinaryOp::Mod => {
                    return Err(self.non_condition_expression(span));
                },
                BinaryOp::LogicalAnd | BinaryOp::LogicalOr => {
                    let left = self.to_search_condition(left)?;
                    let right = self.to_search_condition(right)?;
                    sast::SearchCondition::BoolExpr {
                        left,
                        op: match op.value {
                            BinaryOp::LogicalAnd => sast::BoolOperator::AND,
                            _ => sast::BoolOperator::OR,
                        },
                        right,
                    }
                },
                BinaryOp::LT
                | BinaryOp::GT
                | BinaryOp::EQ
                | BinaryOp::NEQ
                | BinaryOp::LTE
                | BinaryOp::GTE => {
                    let left = self.to_value_expression(left)?;
                    let right = self.to_value_expression(right)?;
                    sast::SearchCondition::ComparisonExpr {
                        left,
                        op: match op.value {
                            BinaryOp::LT => sast::ComparisonOperator::LT,
                            BinaryOp::GT => sast::ComparisonOperator::GT,
                            BinaryOp::EQ => sast::ComparisonOperator::EQ,
                            BinaryOp::NEQ => sast::ComparisonOperator::NEQ,
                            BinaryOp::LTE => sast::ComparisonOperator::LTE,
                            _ => sast::ComparisonOperator::GTE,
                        },
                        right,
                    }
                },
            },
        };
        Ok(Box::new(cond))
    }
}

} // verus!
