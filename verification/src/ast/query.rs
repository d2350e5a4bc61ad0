//! Queries and their tabular operators.

use crate::ast::expression::{Expression, ExpressionView};
use crate::spans::{MBox, Span, M};
use vstd::prelude::*;

verus! {

/// A table name followed by the operators applied to it, in order.
#[derive(Debug, PartialEq)]
pub struct Query {
    /// The base table value to start with.
    pub table: M<String>,
    /// The tabular operators to apply to it. The first field is the name as
    /// written, which may be an alias (`take` for the operator `Limit`).
    pub operators: Vec<(M<String>, TabularOperator)>,
}

/// The view of [`Query`]: the same value, with sequences for its strings and vectors.
pub struct QueryView {
    pub table: M<Seq<char>>,
    pub operators: Seq<(M<Seq<char>>, TabularOperatorView)>,
}

/// The logically distinct operators (aliases are not included).
///
/// Aliases:
/// * order -> sort
/// * take -> limit
#[allow(inconsistent_fields)]
#[derive(Debug, PartialEq)]
pub enum TabularOperator {
    Count,
    Distinct {
        /// Columns to ensure distinctness of
        columns: Columns,
    },
    Extend {
        /// New columns to define
        columns: Vec<(M<String>, MBox<Expression>)>,
    },
    Join {
        /// The join parameters
        params: JoinParams,
        /// The other table to join
        right_table: Box<Query>,
        /// Attributes to join tables on
        attributes: Vec<JoinAttribute>,
    },
    Limit {
        /// The maximum number of records
        limit: M<i64>,
    },
    Project {
        /// Columns to retain and new columns to define
        columns: Vec<ColumnDefinition>,
    },
    Sort {
        /// Span for by keyword
        by_kwd: Span,
        /// Sortings to be performed
        sortings: Vec<Sorting>,
    },
    Summarize { result_columns: Vec<ColumnDefinition>, by_kwd: Span, grouping_columns: Vec<ColumnDefinition> },
    Top {
        /// The maximum number of records
        limit: M<i64>,
        /// Span for by keyword
        by_kwd: Span,
        /// The expression to sort on
        expr: MBox<Expression>,
        /// Ascending or descending
        order: Option<M<SortOrder>>,
        /// Span of `nulls` keyword, value for `first`|`last`
        nulls: Option<(Span, M<NullsPosition>)>,
    },
    Where {
        /// The expression to filter on
        expr: MBox<Expression>,
    },
}

/// The view of [`TabularOperator`]: the same value, with sequences for its strings and vectors.
#[allow(inconsistent_fields)]
pub enum TabularOperatorView {
    Count,
    Distinct { columns: ColumnsView },
    Extend { columns: Seq<(M<Seq<char>>, MBox<ExpressionView>)> },
    Join { params: JoinParams, right_table: Box<QueryView>, attributes: Seq<JoinAttributeView> },
    Limit { limit: M<i64> },
    Project { columns: Seq<ColumnDefinitionView> },
    Sort { by_kwd: Span, sortings: Seq<SortingView> },
    Summarize {
        result_columns: Seq<ColumnDefinitionView>,
        by_kwd: Span,
        grouping_columns: Seq<ColumnDefinitionView>,
    },
    Top {
        limit: M<i64>,
        by_kwd: Span,
        expr: MBox<ExpressionView>,
        order: Option<M<SortOrder>>,
        nulls: Option<(Span, M<NullsPosition>)>,
    },
    Where { expr: MBox<ExpressionView> },
}

impl Query {
    pub open spec fn model(&self) -> QueryView
        decreases self,
    {
        QueryView {
            table: self.table.deep_view(),
            operators: Seq::new(
                self.operators@.len(),
                |i: int|
                    if 0 <= i < self.operators@.len() {
                        (self.operators@[i].0.deep_view(), self.operators@[i].1.model())
                    } else {
                        arbitrary()
                    },
            ),
        }
    }
}

impl TabularOperator {
    pub open spec fn model(&self) -> TabularOperatorView
        decreases self,
    {
        match self {
            TabularOperator::Count => TabularOperatorView::Count,
            TabularOperator::Distinct { columns } => TabularOperatorView::Distinct {
                columns: columns.deep_view(),
            },
            TabularOperator::Extend { columns } => TabularOperatorView::Extend {
                columns: columns.deep_view(),
            },
            TabularOperator::Join { params, right_table, attributes } => TabularOperatorView::Join {
                params: *params,
                right_table: Box::new(right_table.model()),
                attributes: attributes.deep_view(),
            },
            TabularOperator::Limit { limit } => TabularOperatorView::Limit { limit: *limit },
            TabularOperator::Project { columns } => TabularOperatorView::Project {
                columns: columns.deep_view(),
            },
            TabularOperator::Sort { by_kwd, sortings } => TabularOperatorView::Sort {
                by_kwd: *by_kwd,
                sortings: sortings.deep_view(),
            },
            TabularOperator::Summarize { result_columns, by_kwd, grouping_columns } => {
                TabularOperatorView::Summarize {
                    result_columns: result_columns.deep_view(),
                    by_kwd: *by_kwd,
                    grouping_columns: grouping_columns.deep_view(),
                }
            },
            TabularOperator::Top { limit, by_kwd, expr, order, nulls } => TabularOperatorView::Top {
                limit: *limit,
                by_kwd: *by_kwd,
                expr: expr.deep_view(),
                order: *order,
                nulls: *nulls,
            },
            TabularOperator::Where { expr } => TabularOperatorView::Where {
                expr: expr.deep_view(),
            },
        }
    }
}

impl DeepView for Query {
    type V = QueryView;

    open spec fn deep_view(&self) -> QueryView {
        self.model()
    }
}

impl DeepView for TabularOperator {
    type V = TabularOperatorView;

    open spec fn deep_view(&self) -> TabularOperatorView {
        self.model()
    }
}

/// The columns of a `distinct`: some by name, or all.
#[derive(Debug, Clone, PartialEq)]
pub enum Columns {
    Explicit(Vec<M<String>>),
    Wildcard(Span),
}

/// The view of [`Columns`]: the same value, with sequences for its strings and vectors.
pub enum ColumnsView {
    Explicit(Seq<M<Seq<char>>>),
    Wildcard(Span),
}

impl DeepView for Columns {
    type V = ColumnsView;

    open spec fn deep_view(&self) -> ColumnsView {
        match self {
            Columns::Explicit(names) => ColumnsView::Explicit(names.deep_view()),
            Columns::Wildcard(span) => ColumnsView::Wildcard(*span),
        }
    }
}

#[derive(Debug, Clone, Copy, PartialEq, Eq, Structural)]
pub struct JoinParams {
    pub kind: Option<JoinKind>,
}

#[derive(Debug, Clone, Copy, PartialEq, Eq, Structural)]
pub enum JoinKind {
    /// Inner join with left side deduplication
    /// Name "innerunique"
    InnerUnique,
    /// Standard inner join
    /// Name "inner"
    Inner,
    /// Left outer join
    /// Name "leftouter"
    LeftOuter,
    /// Right outer join
    /// Name "rightouter"
    RightOuter,
    /// Full outer join
    /// Name "fullouter"
    FullOuter,
    /// Left anti join
    /// Name "leftanti"
    LeftAnti,
    /// Right anti join
    /// Name "rightanti"
    RightAnti,
    /// Left semi join
    /// Name "leftsemi"
    LeftSemi,
    /// Right semi join
    /// Name "rightsemi"
    RightSemi,
}

impl JoinKind {
    /// The side whose columns a join of this kind returns: an anti or semi
    /// join returns those of the side it is named after, every other kind
    /// those of both sides.
    pub open spec fn returned(self) -> JoinReturnColumns {
        match self {
            JoinKind::LeftAnti | JoinKind::LeftSemi => JoinReturnColumns::Left,
            JoinKind::RightAnti | JoinKind::RightSemi => JoinReturnColumns::Right,
            _ => JoinReturnColumns::Both,
        }
    }

    pub fn return_columns(&self) -> (columns: JoinReturnColumns)
        ensures
            columns == self.returned(),
    {
        match self {
            JoinKind::LeftAnti | JoinKind::LeftSemi => JoinReturnColumns::Left,
            JoinKind::RightAnti | JoinKind::RightSemi => JoinReturnColumns::Right,
            JoinKind::InnerUnique
            | JoinKind::Inner
            | JoinKind::LeftOuter
            | JoinKind::RightOuter
            | JoinKind::FullOuter => JoinReturnColumns::Both,
        }
    }
}

#[derive(Debug, Clone, Copy, PartialEq, Eq, Structural)]
pub enum JoinReturnColumns {
    Left,
    Right,
    Both,
}

/// What two tables are joined on: a column of the same name in both, or a
/// column of each.
#[derive(Debug, Clone, PartialEq)]
pub enum JoinAttribute {
    Matching { name: M<String> },
    NonMatching { left_kwd: Span, left_name: M<String>, right_kwd: Span, right_name: M<String> },
}

/// The view of [`JoinAttribute`]: the same value, with sequences for its strings and vectors.
pub enum JoinAttributeView {
    Matching { name: M<Seq<char>> },
    NonMatching {
        left_kwd: Span,
        left_name: M<Seq<char>>,
        right_kwd: Span,
        right_name: M<Seq<char>>,
    },
}

impl DeepView for JoinAttribute {
    type V = JoinAttributeView;

    open spec fn deep_view(&self) -> JoinAttributeView {
        match self {
            JoinAttribute::Matching { name } => JoinAttributeView::Matching {
                name: name.deep_view(),
            },
            JoinAttribute::NonMatching { left_kwd, left_name, right_kwd, right_name } => {
                JoinAttributeView::NonMatching {
                    left_kwd: *left_kwd,
                    left_name: left_name.deep_view(),
                    right_kwd: *right_kwd,
                    right_name: right_name.deep_view(),
                }
            },
        }
    }
}

/// A column of a result: kept under its name, or computed by an expression.
#[derive(Debug, PartialEq)]
pub struct ColumnDefinition {
    pub column: M<String>,
    pub expr: Option<MBox<Expression>>,
}

/// The view of [`ColumnDefinition`]: the same value, with sequences for its strings and vectors.
pub struct ColumnDefinitionView {
    pub column: M<Seq<char>>,
    pub expr: Option<MBox<ExpressionView>>,
}

impl DeepView for ColumnDefinition {
    type V = ColumnDefinitionView;

    open spec fn deep_view(&self) -> ColumnDefinitionView {
        ColumnDefinitionView { column: self.column.deep_view(), expr: self.expr.deep_view() }
    }
}

#[derive(Debug, Clone, PartialEq)]
pub struct Sorting {
    /// The column to sort by
    pub column: M<String>,
    /// Ascending or descending
    pub order: Option<M<SortOrder>>,
    /// Span of `nulls` keyword, value for `first`|`last`
    pub nulls: Option<(Span, M<NullsPosition>)>,
}

/// The view of [`Sorting`]: the same value, with sequences for its strings and vectors.
pub struct SortingView {
    pub column: M<Seq<char>>,
    pub order: Option<M<SortOrder>>,
    pub nulls: Option<(Span, M<NullsPosition>)>,
}

impl DeepView for Sorting {
    type V = SortingView;

    open spec fn deep_view(&self) -> SortingView {
        SortingView { column: self.column.deep_view(), order: self.order, nulls: self.nulls }
    }
}

#[derive(Debug, Clone, Copy, PartialEq, Eq, Structural)]
pub enum SortOrder {
    Ascending,
    Descending,
}

#[derive(Debug, Clone, Copy, PartialEq, Eq, Structural)]
pub enum NullsPosition {
    First,
    Last,
}

impl DeepView for JoinParams {
    type V = JoinParams;

    open spec fn deep_view(&self) -> JoinParams {
        *self
    }
}

impl DeepView for JoinKind {
    type V = JoinKind;

    open spec fn deep_view(&self) -> JoinKind {
        *self
    }
}

impl DeepView for SortOrder {
    type V = SortOrder;

    open spec fn deep_view(&self) -> SortOrder {
        *self
    }
}

impl DeepView for NullsPosition {
    type V = NullsPosition;

    open spec fn deep_view(&self) -> NullsPosition {
        *self
    }
}

} // verus!
