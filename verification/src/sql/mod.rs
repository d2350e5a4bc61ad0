//! SQL statements and their text.
//!
//! A statement is printed one clause per line; a nested statement is printed
//! between `FROM (` and `)`, four spaces further in.

pub mod ast;

use crate::numbers::Real;
use crate::text::{decimal, indentation, push_decimal, push_indentation};
use crate::numbers::real_text;
use ast::{
    LiteralView, Modifier, OrderByClause, OrderByClauseView, SearchCondition, SearchConditionView,
    SelectColumnView, SelectList, SelectListView, SelectStatement, SelectStatementView,
    SortSpecificationView, TableReference, TableReferenceView, ValueExpression,
    ValueExpressionView,
};
use vstd::prelude::*;

verus! {

/// The parts, in order, with `separator` between each two.
pub open spec fn joined_text(parts: Seq<Seq<char>>, separator: Seq<char>) -> Seq<char>
    decreases parts.len(),
{
    if parts.len() == 0 {
        Seq::empty()
    } else if parts.len() == 1 {
        parts[0]
    } else {
        joined_text(parts.drop_last(), separator) + separator + parts.last()
    }
}

/// What joining one more part adds to the text.
pub proof fn lemma_joined_text_step(parts: Seq<Seq<char>>, separator: Seq<char>, count: int)
    requires
        0 <= count < parts.len(),
    ensures
        joined_text(parts.take(count + 1), separator) == if count == 0 {
            parts[0]
        } else {
            joined_text(parts.take(count), separator) + separator + parts[count]
        },
{
    let longer = parts.take(count + 1);
    assert(longer.last() == parts[count]);
    assert(longer.drop_last() =~= parts.take(count));
    assert(longer[0] == parts[0]);
}

/// The text of a constant.
pub open spec fn literal_text(value: LiteralView) -> Seq<char> {
    match value {
        LiteralView::Bool(Some(v)) => if v {
            "true"@
        } else {
            "false"@
        },
        LiteralView::Integer(Some(v)) => decimal(v as int),
        LiteralView::Real(Some(v)) => real_text(v),
        LiteralView::String(v) => v,
        _ => "NULL"@,
    }
}

/// The text of a value expression: operators between their operands, with a
/// space on each side, and the arguments of a call separated by `, `.
pub open spec fn value_text(expr: ValueExpressionView) -> Seq<char>
    decreases expr, 0nat,
{
    match expr {
        ValueExpressionView::Column { name } => name,
        ValueExpressionView::FuncCall { name, args } => name + "("@ + joined_text(
            value_texts(args),
            ", "@,
        ) + ")"@,
        ValueExpressionView::ArithmeticExpr { left, op, right } => value_text(*left) + " "@
            + op.text() + " "@ + value_text(*right),
        ValueExpressionView::Literal { value } => literal_text(value),
    }
}

/// The text of each expression of a list.
pub open spec fn value_texts(exprs: Seq<ValueExpressionView>) -> Seq<Seq<char>>
    decreases exprs, 1nat,
{
    Seq::new(
        exprs.len(),
        |i: int|
            if 0 <= i < exprs.len() {
                value_text(exprs[i])
            } else {
                Seq::empty()
            },
    )
}

/// The text of a condition.
pub open spec fn condition_text(cond: SearchConditionView) -> Seq<char>
    decreases cond,
{
    match cond {
        SearchConditionView::BoolExpr { left, op, right } => condition_text(*left) + " "@
            + op.text() + " "@ + condition_text(*right),
        SearchConditionView::ComparisonExpr { left, op, right } => value_text(left) + " "@
            + op.text() + " "@ + value_text(right),
    }
}

/// The text of one selected column, with its alias if it has one.
pub open spec fn column_text(column: SelectColumnView) -> Seq<char> {
    match column.alias {
        Some(alias) => value_text(column.value) + " as "@ + alias,
        None => value_text(column.value),
    }
}

/// The items of a select list: `*` first if it is there, then the columns.
pub open spec fn select_items(select: SelectListView) -> Seq<Seq<char>> {
    let columns = select.columns.map_values(|column: SelectColumnView| column_text(column));
    if select.wildcard {
        seq!["*"@] + columns
    } else {
        columns
    }
}

pub open spec fn modifier_text(modifier: Option<Modifier>) -> Seq<char> {
    match modifier {
        Some(Modifier::Distinct) => "DISTINCT "@,
        Some(Modifier::All) => "ALL "@,
        None => Seq::empty(),
    }
}

/// The `SELECT` line.
pub open spec fn select_line(modifier: Option<Modifier>, select: SelectListView, level: nat) -> Seq<
    char,
> {
    indentation(level) + "SELECT "@ + modifier_text(modifier) + joined_text(
        select_items(select),
        ", "@,
    ) + "\n"@
}

/// The `WHERE` line.
pub open spec fn where_line(cond: SearchConditionView, level: nat) -> Seq<char> {
    indentation(level) + "WHERE "@ + condition_text(cond) + "\n"@
}

pub open spec fn sort_text(sort: SortSpecificationView) -> Seq<char> {
    sort.column_name + " "@ + sort.order.text()
}

/// The `ORDER BY` line.
pub open spec fn order_by_line(order: OrderByClauseView, level: nat) -> Seq<char> {
    indentation(level) + "ORDER BY "@ + joined_text(
        order.specs.map_values(|sort: SortSpecificationView| sort_text(sort)),
        ", "@,
    ) + "\n"@
}

/// The `LIMIT` line.
pub open spec fn limit_line(limit: i64, level: nat) -> Seq<char> {
    indentation(level) + "LIMIT "@ + decimal(limit as int) + "\n"@
}

/// The `FROM` clause: one line for a table, and for a nested statement its
/// text between `FROM (` and `)`, one level further in.
pub open spec fn from_text(from: TableReferenceView, level: nat) -> Seq<char>
    decreases from,
{
    match from {
        TableReferenceView::TableName { name } => indentation(level) + "FROM "@ + name + "\n"@,
        TableReferenceView::InnerStatement { value } => indentation(level) + "FROM (\n"@
            + statement_text(*value, level + 1) + indentation(level) + ")\n"@,
    }
}

/// The text of a statement at a level of nesting: the `SELECT` line, the
/// `FROM` clause, and the lines of the clauses that it has besides.
pub open spec fn statement_text(statement: SelectStatementView, level: nat) -> Seq<char>
    decreases statement,
{
    select_line(statement.modifier, statement.select, level) + from_text(statement.from, level)
        + tail_text(statement, level)
}

/// The lines after the `FROM` clause: `WHERE`, `ORDER BY` and `LIMIT`, each
/// where the statement has that clause.
pub open spec fn tail_text(statement: SelectStatementView, level: nat) -> Seq<char> {
    (match statement.where_ {
        Some(cond) => where_line(cond, level),
        None => Seq::empty(),
    }) + (match statement.order_by {
        Some(order) => order_by_line(order, level),
        None => Seq::empty(),
    }) + (match statement.limit {
        Some(limit) => limit_line(limit, level),
        None => Seq::empty(),
    })
}

/// The error of a statement that cannot be printed.
#[derive(Debug, Clone, Copy, PartialEq, Eq, Structural)]
pub struct FormatError;

/// Accumulates the text of a statement.
#[derive(Debug)]
pub struct Printer {
    output: String,
    indent: u32,
}

impl Default for Printer {
    fn default() -> (printer: Printer)
        ensures
            printer.text() == Seq::<char>::empty(),
            printer.level() == 0,
    {
        Printer { output: String::new(), indent: 0 }
    }
}

impl Printer {
    /// What has been printed so far.
    pub closed spec fn text(&self) -> Seq<char> {
        self.output@
    }

    /// The level of nesting that lines are printed at.
    pub closed spec fn level(&self) -> nat {
        self.indent as nat
    }

    /// The text printed so far.
    pub fn into_string(self) -> (text: String)
        ensures
            text@ == self.text(),
    {
        self.output
    }

    fn indent(&mut self)
        requires
            old(self).indent < u32::MAX,
        ensures
            final(self).indent == old(self).indent + 1,
            final(self).output == old(self).output,
    {
        self.indent += 1;
    }

    fn dedent(&mut self)
        requires
            old(self).indent > 0,
        ensures
            final(self).indent == old(self).indent - 1,
            final(self).output == old(self).output,
    {
        self.indent -= 1;
    }

    fn end_line(&mut self)
        ensures
            final(self).indent == old(self).indent,
            final(self).output@ == old(self).output@ + "\n"@,
    {
        self.output.append("\n");
    }

    fn start_line(&mut self)
        ensures
            final(self).indent == old(self).indent,
            final(self).output@ == old(self).output@ + indentation(old(self).indent as nat),
    {
        push_indentation(&mut self.output, self.indent);
    }

    /// Whether the statement's nesting fits above the current level.
    fn has_room(&self, statement: &SelectStatement) -> (fits: bool)
        ensures
            fits == (self.indent + statement.deep_view().nesting() <= u32::MAX),
    {
        let mut room: u32 = u32::MAX - self.indent;
        let mut current = statement;
        loop
            invariant
                (self.indent + statement.deep_view().nesting() <= u32::MAX) == (
                current.deep_view().nesting() <= room),
            decreases current,
        {
            match &current.from {
                TableReference::TableName { name: _ } => {
                    return true;
                },
                TableReference::InnerStatement { value } => {
                    if room == 0 {
                        return false;
                    }
                    room -= 1;
                    current = value;
                },
            }
        }
    }

    /// Appends the text of `statement` at the current level.
    ///
    /// Fails, and prints nothing, when the statement is nested deeper than
    /// the levels that are left.
    pub fn print_query(&mut self, statement: &SelectStatement) -> (result: Result<(), FormatError>)
        ensures
            result is Ok <==> old(self).level() + statement.deep_view().nesting() <= u32::MAX,
            result is Ok ==> final(self).text() == old(self).text() + statement_text(
                statement.deep_view(),
                old(self).level(),
            ),
            result is Err ==> final(self).text() == old(self).text(),
            final(self).level() == old(self).level(),
    {
        if self.has_room(statement) {
            self.print_statement(statement);
            Ok(())
        } else {
            Err(FormatError)
        }
    }

    fn print_statement(&mut self, statement: &SelectStatement)
        requires
            old(self).indent + statement.deep_view().nesting() <= u32::MAX,
        ensures
            final(self).indent == old(self).indent,
            final(self).output@ == old(self).output@ + statement_text(
                statement.deep_view(),
                old(self).indent as nat,
            ),
        decreases statement,
    {
        let ghost level = self.indent as nat;
        let ghost model = statement.deep_view();
        self.print_select(&statement.modifier, &statement.select);
        self.print_from(&statement.from);
        self.print_tail(statement);
        assert(self.output@ =~= old(self).output@ + statement_text(model, level));
    }

    /// Appends the clauses that follow `FROM`.
    fn print_tail(&mut self, statement: &SelectStatement)
        ensures
            final(self).indent == old(self).indent,
            final(self).output@ == old(self).output@ + tail_text(
                statement.deep_view(),
                old(self).indent as nat,
            ),
    {
        let ghost level = self.indent as nat;
        if let Some(cond) = &statement.where_ {
            self.print_where(cond);
        }
        if let Some(order) = &statement.order_by {
            self.print_order_by(order);
        }
        let ghost after_order = self.output@;
        if let Some(limit) = statement.limit {
            self.start_line();
            self.output.append("LIMIT ");
            push_decimal(&mut self.output, limit);
            self.end_line();
            assert(self.output@ =~= after_order + limit_line(limit, level));
        }
        assert(self.output@ =~= old(self).output@ + tail_text(statement.deep_view(), level));
    }

    fn print_select(&mut self, modifier: &Option<Modifier>, select: &SelectList)
        ensures
            final(self).indent == old(self).indent,
            final(self).output@ == old(self).output@ + select_line(
                *modifier,
                select.deep_view(),
                old(self).indent as nat,
            ),
    {
        let ghost level = self.indent as nat;
        let ghost items = select_items(select.deep_view());
        self.start_line();
        match modifier {
            Some(Modifier::Distinct) => self.output.append("SELECT DISTINCT "),
            Some(Modifier::All) => self.output.append("SELECT ALL "),
            None => self.output.append("SELECT "),
        }
        ;
        proof {
            reveal_strlit("SELECT DISTINCT ");
            reveal_strlit("SELECT ALL ");
            reveal_strlit("SELECT ");
            reveal_strlit("DISTINCT ");
            reveal_strlit("ALL ");
        }
        let ghost head = old(self).output@ + indentation(level) + "SELECT "@ + modifier_text(
            *modifier,
        );
        assert(self.output@ =~= head);
        let mut first = true;
        if select.wildcard {
            self.output.append("*");
            first = false;
        }
        let ghost offset: int = if select.wildcard {
            1
        } else {
            0
        };
        assert(items.take(offset) =~= if select.wildcard {
            seq!["*"@]
        } else {
            Seq::empty()
        });
        assert(self.output@ =~= head + joined_text(items.take(offset), ", "@));
        let mut i: usize = 0;
        while i < select.columns.len()
            invariant
                i <= select.columns.len(),
                items == select_items(select.deep_view()),
                items.len() == select.columns.len() + offset,
                offset == if select.wildcard {
                    1int
                } else {
                    0int
                },
                first == (i + offset == 0),
                self.indent == old(self).indent,
                self.output@ == head + joined_text(items.take(i + offset), ", "@),
            decreases select.columns.len() - i,
        {
            let field = &select.columns[i];
            if !first {
                self.output.append(", ");
            }
            self.print_val_expr(&field.value);
            if let Some(alias) = &field.alias {
                self.output.append(" as ");
                self.output.append(alias.as_str());
            }
            first = false;
            proof {
                lemma_joined_text_step(items, ", "@, i + offset);
                assert(items[i + offset] == column_text(select.deep_view().columns[i as int]));
                assert(select.deep_view().columns[i as int] == select.columns@[i as int].deep_view());
                assert(self.output@ =~= head + joined_text(items.take(i + offset + 1), ", "@));
            }
            i += 1;
        }
        assert(items.take(items.len() as int) =~= items);
        self.end_line();
        assert(self.output@ =~= old(self).output@ + select_line(
            *modifier,
            select.deep_view(),
            level,
        ));
    }

    fn print_from(&mut self, table_refs: &TableReference)
        requires
            match table_refs {
                TableReference::TableName { name: _ } => true,
                TableReference::InnerStatement { value } => old(self).indent + 1
                    + value.deep_view().nesting() <= u32::MAX,
            },
        ensures
            final(self).indent == old(self).indent,
            final(self).output@ == old(self).output@ + from_text(
                table_refs.deep_view(),
                old(self).indent as nat,
            ),
        decreases table_refs,
    {
        let ghost level = self.indent as nat;
        match table_refs {
            TableReference::TableName { name } => {
                self.start_line();
                self.output.append("FROM ");
                self.output.append(name.as_str());
                self.end_line();
                assert(self.output@ =~= old(self).output@ + from_text(
                    table_refs.deep_view(),
                    level,
                ));
            },
            TableReference::InnerStatement { value } => {
                self.start_line();
                self.output.append("FROM (");
                self.end_line();
                proof {
                    reveal_strlit("FROM (");
                    reveal_strlit("FROM (\n");
                    reveal_strlit("\n");
                }
                assert(self.output@ =~= old(self).output@ + indentation(level) + "FROM (\n"@);

                self.indent();
                self.print_statement(value);
                self.dedent();

                self.start_line();
                self.output.append(")");
                self.end_line();
                proof {
                    reveal_strlit(")");
                    reveal_strlit(")\n");
                }
                assert(self.output@ =~= old(self).output@ + from_text(
                    table_refs.deep_view(),
                    level,
                ));
            },
        }
    }

    fn print_condition(&mut self, cond: &SearchCondition)
        ensures
            final(self).indent == old(self).indent,
            final(self).output@ == old(self).output@ + condition_text(cond.deep_view()),
        decreases cond,
    {
        match cond {
            SearchCondition::BoolExpr { left, op, right } => {
                self.print_condition(left);
                self.output.append(" ");
                self.output.append(op.as_str());
                self.output.append(" ");
                self.print_condition(right);
            },
            SearchCondition::ComparisonExpr { left, op, right } => {
                self.print_val_expr(left);
                self.output.append(" ");
                self.output.append(op.as_str());
                self.output.append(" ");
                self.print_val_expr(right);
            },
        }
        assert(self.output@ =~= old(self).output@ + condition_text(cond.deep_view()));
    }

    fn print_where(&mut self, cond: &SearchCondition)
        ensures
            final(self).indent == old(self).indent,
            final(self).output@ == old(self).output@ + where_line(
                cond.deep_view(),
                old(self).indent as nat,
            ),
    {
        self.start_line();
        self.output.append("WHERE ");
        self.print_condition(cond);
        self.end_line();
        assert(self.output@ =~= old(self).output@ + where_line(
            cond.deep_view(),
            old(self).indent as nat,
        ));
    }

    fn print_order_by(&mut self, order: &OrderByClause)
        ensures
            final(self).indent == old(self).indent,
            final(self).output@ == old(self).output@ + order_by_line(
                order.deep_view(),
                old(self).indent as nat,
            ),
    {
        let ghost level = self.indent as nat;
        let ghost items = order.deep_view().specs.map_values(
            |sort: SortSpecificationView| sort_text(sort),
        );
        self.start_line();
        self.output.append("ORDER BY ");
        let ghost head = old(self).output@ + indentation(level) + "ORDER BY "@;
        assert(self.output@ =~= head + joined_text(items.take(0), ", "@));
        let mut i: usize = 0;
        while i < order.specs.len()
            invariant
                i <= order.specs.len(),
                items == order.deep_view().specs.map_values(
                    |sort: SortSpecificationView| sort_text(sort),
                ),
                items.len() == order.specs.len(),
                self.indent == old(self).indent,
                self.output@ == head + joined_text(items.take(i as int), ", "@),
            decreases order.specs.len() - i,
        {
            let sort = &order.specs[i];
            if i > 0 {
                self.output.append(", ");
            }
            self.output.append(sort.column_name.as_str());
            self.output.append(" ");
            self.output.append(sort.order.as_str());
            proof {
                lemma_joined_text_step(items, ", "@, i as int);
                assert(items[i as int] == sort_text(order.deep_view().specs[i as int]));
                assert(order.deep_view().specs[i as int] == order.specs@[i as int].deep_view());
                assert(self.output@ =~= head + joined_text(items.take(i + 1), ", "@));
            }
            i += 1;
        }
        assert(items.take(items.len() as int) =~= items);
        self.end_line();
        assert(self.output@ =~= old(self).output@ + order_by_line(order.deep_view(), level));
    }

    fn print_val_expr(&mut self, expr: &ValueExpression)
        ensures
            final(self).indent == old(self).indent,
            final(self).output@ == old(self).output@ + value_text(expr.deep_view()),
        decreases expr,
    {
        match expr {
            ValueExpression::Column { name } => {
                self.output.append(name.as_str());
            },
            ValueExpression::FuncCall { name, args } => {
                let ghost model = expr.deep_view()->FuncCall_args;
                let ghost items = value_texts(model);
                self.output.append(name.as_str());
                self.output.append("(");
                let ghost head = old(self).output@ + name@ + "("@;
                assert(self.output@ =~= head + joined_text(items.take(0), ", "@));
                let mut i: usize = 0;
                while i < args.len()
                    invariant
                        i <= args.len(),
                        expr is FuncCall,
                        expr->FuncCall_args == args,
                        model == expr.deep_view()->FuncCall_args,
                        model.len() == args.len(),
                        items.len() == args.len(),
                        forall|j: int| 0 <= j < args.len() ==> #[trigger] items[j] == value_text(args@[j].deep_view()),
                        self.indent == old(self).indent,
                        self.output@ == head + joined_text(items.take(i as int), ", "@),
                    decreases args.len() - i,
                {
                    if i > 0 {
                        self.output.append(", ");
                    }
                    self.print_val_expr(&args[i]);
                    proof {
                        lemma_joined_text_step(items, ", "@, i as int);
                        assert(self.output@ =~= head + joined_text(items.take(i + 1), ", "@));
                    }
                    i += 1;
                }
                assert(items.take(items.len() as int) =~= items);
                self.output.append(")");
                assert(self.output@ =~= old(self).output@ + value_text(expr.deep_view()));
            },
            ValueExpression::ArithmeticExpr { left, op, right } => {
                self.print_val_expr(left);
                self.output.append(" ");
                self.output.append(op.as_str());
                self.output.append(" ");
                self.print_val_expr(right);
                assert(self.output@ =~= old(self).output@ + value_text(expr.deep_view()));
            },
            ValueExpression::Literal { value } => {
                match value {
                    ast::Literal::Bool(Some(v)) => {
                        if *v {
                            self.output.append("true");
                        } else {
                            self.output.append("false");
                        }
                    },
                    ast::Literal::Integer(Some(v)) => {
                        push_decimal(&mut self.output, *v);
                    },
                    ast::Literal::Real(Some(v)) => {
                        match v {
                            Real::Nan => self.output.append("NaN"),
                            Real::Infinity => self.output.append("inf"),
                            Real::NegInfinity => self.output.append("-inf"),
                            Real::Decimal(digits) => self.output.append(digits.as_str()),
                        }
                    },
                    ast::Literal::String(v) => {
                        self.output.append(v.as_str());
                    },
                    _ => {
                        self.output.append("NULL");
                    },
                }
            },
        }
    }
}

impl From<Printer> for String {
    fn from(p: Printer) -> (text: String) {
        p.output
    }
}

impl vstd::std_specs::convert::FromSpecImpl<Printer> for String {
    open spec fn obeys_from_spec() -> bool {
        true
    }

    closed spec fn from_spec(p: Printer) -> String {
        p.output
    }
}

/// The string made from a printer holds what was printed.
pub proof fn lemma_string_from_printer(p: Printer)
    ensures
        <String as vstd::std_specs::convert::FromSpec<Printer>>::from_spec(p)@ == p.text(),
{
}

/// The message of a statement that could not be printed.
pub open spec fn emit_failure() -> Seq<char> {
    "Failed to format SQL output"@
}

/// What printing a statement yields: its text, or the failure for a
/// statement nested deeper than a printer has levels.
pub open spec fn emitted(statement: SelectStatementView) -> Result<Seq<char>, Seq<char>> {
    if statement.nesting() <= u32::MAX {
        Ok(statement_text(statement, 0))
    } else {
        Err(emit_failure())
    }
}

/// The characters of a result of printing.
pub open spec fn characters(result: Result<String, String>) -> Result<Seq<char>, Seq<char>> {
    match result {
        Ok(text) => Ok(text@),
        Err(message) => Err(message@),
    }
}

/// Printing a statement twice gives the same characters both times.
pub proof fn lemma_emit_twice_is_same(
    statement: SelectStatementView,
    first: Result<String, String>,
    second: Result<String, String>,
)
    requires
        characters(first) == emitted(statement),
        characters(second) == emitted(statement),
    ensures
        characters(first) == characters(second),
{
}

/// The text of a statement.
///
/// Fails only for a statement nested deeper than a printer has levels.
pub fn emit(select_stmt: &SelectStatement) -> (result: Result<String, String>)
    ensures
        characters(result) == emitted(select_stmt.deep_view()),
{
    let mut printer = Printer::default();
    if printer.print_query(select_stmt).is_err() {
        Err(String::from_str("Failed to format SQL output"))
    } else {
        let text = printer.into_string();
        assert(text@ =~= statement_text(select_stmt.deep_view(), 0));
        Ok(text)
    }
}

} // verus!
