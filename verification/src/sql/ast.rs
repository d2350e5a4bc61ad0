//! The SQL syntax tree: one `SELECT` statement, possibly over a nested one.

use crate::numbers::{Real, RealView};
use crate::text::contains_name;
use vstd::prelude::*;

verus! {

#[derive(Debug, Clone, Copy, PartialEq, Eq, Structural)]
pub enum Modifier {
    All,
    Distinct,
}

impl DeepView for Modifier {
    type V = Modifier;

    open spec fn deep_view(&self) -> Modifier {
        *self
    }
}

#[derive(Debug, Clone, Copy, PartialEq, Eq, Structural)]
pub enum BoolOperator {
    AND,
    OR,
}

impl BoolOperator {
    /// The keyword the operator is printed as.
    pub open spec fn text(self) -> Seq<char> {
        match self {
            BoolOperator::AND => "AND"@,
            BoolOperator::OR => "OR"@,
        }
    }

    pub fn as_str(&self) -> (keyword: &'static str)
        ensures
            keyword@ == self.text(),
    {
        match self {
            BoolOperator::AND => "AND",
            BoolOperator::OR => "OR",
        }
    }
}

#[derive(Debug, Clone, Copy, PartialEq, Eq, Structural)]
pub enum ComparisonOperator {
    LT,
    GT,
    LTE,
    GTE,
    EQ,
    NEQ,
}

impl ComparisonOperator {
    /// The symbol the operator is printed as.
    pub open spec fn text(self) -> Seq<char> {
        match self {
            ComparisonOperator::LT => "<"@,
            ComparisonOperator::GT => ">"@,
            ComparisonOperator::LTE => "<="@,
            ComparisonOperator::GTE => ">="@,
            ComparisonOperator::EQ => "=="@,
            ComparisonOperator::NEQ => "!="@,
        }
    }

    pub fn as_str(&self) -> (symbol: &'static str)
        ensures
            symbol@ == self.text(),
    {
        match self {
            ComparisonOperator::LT => "<",
            ComparisonOperator::GT => ">",
            ComparisonOperator::LTE => "<=",
            ComparisonOperator::GTE => ">=",
            ComparisonOperator::EQ => "==",
            ComparisonOperator::NEQ => "!=",
        }
    }
}

#[derive(Debug, Clone, Copy, PartialEq, Eq, Structural)]
pub enum ArithmeticOperator {
    Add,
    Sub,
    Mul,
    Div,
}

impl ArithmeticOperator {
    /// The symbol the operator is printed as.
    pub open spec fn text(self) -> Seq<char> {
        match self {
            ArithmeticOperator::Add => "+"@,
            ArithmeticOperator::Sub => "-"@,
            ArithmeticOperator::Mul => "*"@,
            ArithmeticOperator::Div => "/"@,
        }
    }

    pub fn as_str(&self) -> (symbol: &'static str)
        ensures
            symbol@ == self.text(),
    {
        match self {
            ArithmeticOperator::Add => "+",
            ArithmeticOperator::Sub => "-",
            ArithmeticOperator::Mul => "*",
            ArithmeticOperator::Div => "/",
        }
    }
}

#[derive(Debug, Clone, Copy, PartialEq, Eq, Structural)]
pub enum SortOrder {
    Ascending,
    Descending,
}

impl SortOrder {
    /// The keyword the order is printed as.
    pub open spec fn text(self) -> Seq<char> {
        match self {
            SortOrder::Ascending => "ASC"@,
            SortOrder::Descending => "DESC"@,
        }
    }

    pub fn as_str(&self) -> (keyword: &'static str)
        ensures
            keyword@ == self.text(),
    {
        match self {
            SortOrder::Ascending => "ASC",
            SortOrder::Descending => "DESC",
        }
    }
}

/// A constant. A payload of `None` is the null of that type.
#[derive(Debug, Clone, PartialEq)]
pub enum Literal {
    Bool(Option<bool>),
    Integer(Option<i64>),
    Real(Option<Real>),
    String(String),
}

/// The view of [`Literal`]: the same value, with sequences for its strings and vectors.
pub enum LiteralView {
    Bool(Option<bool>),
    Integer(Option<i64>),
    Real(Option<RealView>),
    String(Seq<char>),
}

impl DeepView for Literal {
    type V = LiteralView;

    open spec fn deep_view(&self) -> LiteralView {
        match self {
            Literal::Bool(v) => LiteralView::Bool(*v),
            Literal::Integer(v) => LiteralView::Integer(*v),
            Literal::Real(v) => LiteralView::Real(v.deep_view()),
            Literal::String(v) => LiteralView::String(v@),
        }
    }
}

#[derive(Debug, PartialEq)]
pub enum ValueExpression {
    Column { name: String },
    FuncCall { name: String, args: Vec<Box<ValueExpression>> },
    ArithmeticExpr { left: Box<ValueExpression>, op: ArithmeticOperator, right: Box<ValueExpression> },
    Literal { value: Literal },
}

/// The view of [`ValueExpression`]: the same value, with sequences for its strings and vectors.
pub enum ValueExpressionView {
    Column { name: Seq<char> },
    FuncCall { name: Seq<char>, args: Seq<ValueExpressionView> },
    ArithmeticExpr {
        left: Box<ValueExpressionView>,
        op: ArithmeticOperator,
        right: Box<ValueExpressionView>,
    },
    Literal { value: LiteralView },
}

/// Where a property holds of a name exactly when one of two others holds of
/// it, some name of a list has the property exactly when some name has the
/// one or some name has the other.
pub proof fn lemma_some_name_of_either(
    names: Seq<Seq<char>>,
    whole: spec_fn(Seq<char>) -> bool,
    left: spec_fn(Seq<char>) -> bool,
    right: spec_fn(Seq<char>) -> bool,
)
    requires
        forall|name: Seq<char>| #[trigger] whole(name) == (left(name) || right(name)),
    ensures
        (exists|k: int| 0 <= k < names.len() && whole(#[trigger] names[k])) == ((exists|k: int|
            0 <= k < names.len() && left(#[trigger] names[k])) || (exists|k: int|
            0 <= k < names.len() && right(#[trigger] names[k]))),
{
    if exists|k: int| 0 <= k < names.len() && left(#[trigger] names[k]) {
        let k = choose|k: int| 0 <= k < names.len() && left(#[trigger] names[k]);
        assert(whole(names[k]));
    }
    if exists|k: int| 0 <= k < names.len() && right(#[trigger] names[k]) {
        let k = choose|k: int| 0 <= k < names.len() && right(#[trigger] names[k]);
        assert(whole(names[k]));
    }
}

impl ValueExpressionView {
    /// Whether a column called `name` occurs anywhere in the expression.
    pub open spec fn mentions(self, name: Seq<char>) -> bool
        decreases self,
    {
        match self {
            ValueExpressionView::Column { name: column } => column == name,
            ValueExpressionView::FuncCall { name: _, args } => exists|i: int|
                0 <= i < args.len() && (#[trigger] args[i]).mentions(name),
            ValueExpressionView::ArithmeticExpr { left, op: _, right } => left.mentions(name)
                || right.mentions(name),
            ValueExpressionView::Literal { value: _ } => false,
        }
    }

    /// Whether some column that occurs in the expression is one of `columns`.
    pub open spec fn depends_on_any(self, columns: Seq<Seq<char>>) -> bool {
        exists|k: int| 0 <= k < columns.len() && self.mentions(#[trigger] columns[k])
    }
}

impl ValueExpression {
    pub open spec fn model(&self) -> ValueExpressionView
        decreases self,
    {
        match self {
            ValueExpression::Column { name } => ValueExpressionView::Column { name: name@ },
            ValueExpression::FuncCall { name, args } => ValueExpressionView::FuncCall {
                name: name@,
                args: Seq::new(
                    args@.len(),
                    |i: int|
                        if 0 <= i < args@.len() {
                            args@[i].model()
                        } else {
                            arbitrary()
                        },
                ),
            },
            ValueExpression::ArithmeticExpr { left, op, right } => {
                ValueExpressionView::ArithmeticExpr {
                    left: Box::new(left.model()),
                    op: *op,
                    right: Box::new(right.model()),
                }
            },
            ValueExpression::Literal { value } => ValueExpressionView::Literal {
                value: value.deep_view(),
            },
        }
    }

    /// Whether the expression reads any of `columns`.
    pub fn depends_on_any(&self, columns: &Vec<String>) -> (depends: bool)
        ensures
            depends == self.deep_view().depends_on_any(columns.deep_view()),
        decreases self,
    {
        let ghost names = columns.deep_view();
        match self {
            ValueExpression::Column { name } => contains_name(columns, name),
            ValueExpression::FuncCall { name: _, args } => {
                let ghost model = self.deep_view()->FuncCall_args;
                let mut i: usize = 0;
                while i < args.len()
                    invariant
                        i <= args.len(),
                        self is FuncCall,
                        self->FuncCall_args == args,
                        model == self.deep_view()->FuncCall_args,
                        model.len() == args.len(),
                        names == columns.deep_view(),
                        forall|j: int| 0 <= j < args.len() ==> model[j] == (#[trigger] args@[j]).deep_view(),
                        forall|j: int| 0 <= j < i ==> !(#[trigger] model[j]).depends_on_any(names),
                    decreases args.len() - i,
                {
                    if args[i].depends_on_any(columns) {
                        proof {
                            let k = choose|k: int|
                                0 <= k < names.len() && model[i as int].mentions(
                                    #[trigger] names[k],
                                );
                            assert(model[i as int].mentions(names[k]));
                            assert(self.deep_view().mentions(names[k]));
                        }
                        return true;
                    }
                    i += 1;
                }
                proof {
                    if self.deep_view().depends_on_any(names) {
                        let k = choose|k: int|
                            0 <= k < names.len() && self.deep_view().mentions(#[trigger] names[k]);
                        let j = choose|j: int|
                            0 <= j < model.len() && (#[trigger] model[j]).mentions(names[k]);
                        assert(model[j].depends_on_any(names));
                    }
                }
                false
            },
            ValueExpression::ArithmeticExpr { left, op: _, right } => {
                let l = left.depends_on_any(columns);
                let r = right.depends_on_any(columns);
                proof {
                    lemma_some_name_of_either(
                        names,
                        |name: Seq<char>| self.deep_view().mentions(name),
                        |name: Seq<char>| left.deep_view().mentions(name),
                        |name: Seq<char>| right.deep_view().mentions(name),
                    );
                }
                l || r
            },
            ValueExpression::Literal { value: _ } => false,
        }
    }
}

impl DeepView for ValueExpression {
    type V = ValueExpressionView;

    open spec fn deep_view(&self) -> ValueExpressionView {
        self.model()
    }
}

#[allow(inconsistent_fields)]
#[derive(Debug, PartialEq)]
pub enum SearchCondition {
    BoolExpr { left: Box<SearchCondition>, op: BoolOperator, right: Box<SearchCondition> },
    ComparisonExpr { left: Box<ValueExpression>, op: ComparisonOperator, right: Box<ValueExpression> },
}

/// The view of [`SearchCondition`]: the same value, with sequences for its strings and vectors.
#[allow(inconsistent_fields)]
pub enum SearchConditionView {
    BoolExpr { left: Box<SearchConditionView>, op: BoolOperator, right: Box<SearchConditionView> },
    ComparisonExpr { left: ValueExpressionView, op: ComparisonOperator, right: ValueExpressionView },
}

impl SearchConditionView {
    /// Whether a column called `name` occurs anywhere in the condition.
    pub open spec fn mentions(self, name: Seq<char>) -> bool
        decreases self,
    {
        match self {
            SearchConditionView::BoolExpr { left, op: _, right } => left.mentions(name)
                || right.mentions(name),
            SearchConditionView::ComparisonExpr { left, op: _, right } => left.mentions(name)
                || right.mentions(name),
        }
    }

    /// Whether some column that occurs in the condition is one of `columns`.
    pub open spec fn depends_on_any(self, columns: Seq<Seq<char>>) -> bool {
        exists|k: int| 0 <= k < columns.len() && self.mentions(#[trigger] columns[k])
    }
}

impl SearchCondition {
    pub open spec fn model(&self) -> SearchConditionView
        decreases self,
    {
        match self {
            SearchCondition::BoolExpr { left, op, right } => SearchConditionView::BoolExpr {
                left: Box::new(left.model()),
                op: *op,
                right: Box::new(right.model()),
            },
            SearchCondition::ComparisonExpr { left, op, right } => {
                SearchConditionView::ComparisonExpr {
                    left: left.deep_view(),
                    op: *op,
                    right: right.deep_view(),
                }
            },
        }
    }

    /// Whether the condition reads any of `columns`.
    pub fn depends_on_any(&self, columns: &Vec<String>) -> (depends: bool)
        ensures
            depends == self.deep_view().depends_on_any(columns.deep_view()),
        decreases self,
    {
        let ghost names = columns.deep_view();
        match self {
            SearchCondition::BoolExpr { left, op: _, right } => {
                let l = left.depends_on_any(columns);
                let r = right.depends_on_any(columns);
                proof {
                    lemma_some_name_of_either(
                        names,
                        |name: Seq<char>| self.deep_view().mentions(name),
                        |name: Seq<char>| left.deep_view().mentions(name),
                        |name: Seq<char>| right.deep_view().mentions(name),
                    );
                }
                l || r
            },
            SearchCondition::ComparisonExpr { left, op: _, right } => {
                let l = left.depends_on_any(columns);
                let r = right.depends_on_any(columns);
                proof {
                    lemma_some_name_of_either(
                        names,
                        |name: Seq<char>| self.deep_view().mentions(name),
                        |name: Seq<char>| left.deep_view().mentions(name),
                        |name: Seq<char>| right.deep_view().mentions(name),
                    );
                }
                l || r
            },
        }
    }
}

impl DeepView for SearchCondition {
    type V = SearchConditionView;

    open spec fn deep_view(&self) -> SearchConditionView {
        self.model()
    }
}

#[derive(Debug, PartialEq)]
pub struct SelectColumn {
    pub value: Box<ValueExpression>,
    pub alias: Option<String>,
}

/// The view of [`SelectColumn`]: the same value, with sequences for its strings and vectors.
pub struct SelectColumnView {
    pub value: ValueExpressionView,
    pub alias: Option<Seq<char>>,
}

impl DeepView for SelectColumn {
    type V = SelectColumnView;

    open spec fn deep_view(&self) -> SelectColumnView {
        SelectColumnView { value: self.value.deep_view(), alias: self.alias.deep_view() }
    }
}

#[derive(Debug, PartialEq)]
pub struct SelectList {
    pub wildcard: bool,
    pub columns: Vec<SelectColumn>,
}

/// The view of [`SelectList`]: the same value, with sequences for its strings and vectors.
pub struct SelectListView {
    pub wildcard: bool,
    pub columns: Seq<SelectColumnView>,
}

impl DeepView for SelectList {
    type V = SelectListView;

    open spec fn deep_view(&self) -> SelectListView {
        SelectListView { wildcard: self.wildcard, columns: self.columns.deep_view() }
    }
}

#[derive(Debug, Clone, PartialEq)]
pub struct SortSpecification {
    pub column_name: String,
    pub order: SortOrder,
}

/// The view of [`SortSpecification`]: the same value, with sequences for its strings and vectors.
pub struct SortSpecificationView {
    pub column_name: Seq<char>,
    pub order: SortOrder,
}

impl DeepView for SortSpecification {
    type V = SortSpecificationView;

    open spec fn deep_view(&self) -> SortSpecificationView {
        SortSpecificationView { column_name: self.column_name@, order: self.order }
    }
}

#[derive(Debug, Clone, PartialEq)]
pub struct OrderByClause {
    pub specs: Vec<SortSpecification>,
}

/// The view of [`OrderByClause`]: the same value, with sequences for its strings and vectors.
pub struct OrderByClauseView {
    pub specs: Seq<SortSpecificationView>,
}

impl DeepView for OrderByClause {
    type V = OrderByClauseView;

    open spec fn deep_view(&self) -> OrderByClauseView {
        OrderByClauseView { specs: self.specs.deep_view() }
    }
}

#[derive(Debug, PartialEq)]
pub enum TableReference {
    TableName { name: String },
    InnerStatement { value: Box<SelectStatement> },
}

/// The view of [`TableReference`]: the same value, with sequences for its strings and vectors.
pub enum TableReferenceView {
    TableName { name: Seq<char> },
    InnerStatement { value: Box<SelectStatementView> },
}

#[derive(Debug, PartialEq)]
pub struct SelectStatement {
    pub modifier: Option<Modifier>,
    pub select: SelectList,
    pub from: TableReference,
    pub where_: Option<Box<SearchCondition>>,
    pub order_by: Option<OrderByClause>,
    pub limit: Option<i64>,
}

/// The view of [`SelectStatement`]: the same value, with sequences for its strings and vectors.
pub struct SelectStatementView {
    pub modifier: Option<Modifier>,
    pub select: SelectListView,
    pub from: TableReferenceView,
    pub where_: Option<SearchConditionView>,
    pub order_by: Option<OrderByClauseView>,
    pub limit: Option<i64>,
}

impl TableReference {
    pub open spec fn model(&self) -> TableReferenceView
        decreases self,
    {
        match self {
            TableReference::TableName { name } => TableReferenceView::TableName { name: name@ },
            TableReference::InnerStatement { value } => TableReferenceView::InnerStatement {
                value: Box::new(value.model()),
            },
        }
    }
}

impl DeepView for TableReference {
    type V = TableReferenceView;

    open spec fn deep_view(&self) -> TableReferenceView {
        self.model()
    }
}

impl SelectStatementView {
    /// The statement that selects every column of a table.
    pub open spec fn simple(table: Seq<char>) -> SelectStatementView {
        SelectStatementView {
            modifier: None,
            select: SelectListView { wildcard: true, columns: Seq::empty() },
            from: TableReferenceView::TableName { name: table },
            where_: None,
            order_by: None,
            limit: None,
        }
    }

    /// The statement that selects every column of what `inner` yields.
    pub open spec fn simple_wrapping(inner: SelectStatementView) -> SelectStatementView {
        SelectStatementView {
            modifier: None,
            select: SelectListView { wildcard: true, columns: Seq::empty() },
            from: TableReferenceView::InnerStatement { value: Box::new(inner) },
            where_: None,
            order_by: None,
            limit: None,
        }
    }

    /// How many statements are nested inside this one.
    pub open spec fn nesting(self) -> nat
        decreases self,
    {
        match self.from {
            TableReferenceView::TableName { name: _ } => 0,
            TableReferenceView::InnerStatement { value } => 1 + value.nesting(),
        }
    }
}

impl SelectStatement {
    pub open spec fn model(&self) -> SelectStatementView
        decreases self,
    {
        SelectStatementView {
            modifier: self.modifier,
            select: self.select.deep_view(),
            from: self.from.model(),
            where_: self.where_.deep_view(),
            order_by: self.order_by.deep_view(),
            limit: self.limit,
        }
    }

    pub fn simple(table: String) -> (statement: Self)
        ensures
            statement.deep_view() == SelectStatementView::simple(table@),
    {
        let statement = SelectStatement {
            modifier: None,
            select: SelectList { wildcard: true, columns: Vec::new() },
            from: TableReference::TableName { name: table },
            where_: None,
            order_by: None,
            limit: None,
        };
        assert(statement.select.deep_view().columns =~= Seq::empty());
        statement
    }

    pub fn simple_wrapping(other: Self) -> (statement: Self)
        ensures
            statement.deep_view() == SelectStatementView::simple_wrapping(other.deep_view()),
    {
        let statement = SelectStatement {
            modifier: None,
            select: SelectList { wildcard: true, columns: Vec::new() },
            from: TableReference::InnerStatement { value: Box::new(other) },
            where_: None,
            order_by: None,
            limit: None,
        };
        assert(statement.select.deep_view().columns =~= Seq::empty());
        statement
    }
}

impl DeepView for SelectStatement {
    type V = SelectStatementView;

    open spec fn deep_view(&self) -> SelectStatementView {
        self.model()
    }
}

} // verus!
