//! Conversion of a KQL query into one SQL `SELECT` statement.

pub mod direct;
pub mod ktos;
pub mod merge;
pub mod merger;

use crate::ast::query::{Query, QueryView, TabularOperatorView};
use crate::lexer::LexerError;
use crate::parser::{ParserError, ParserErrorView};
use crate::results::result_view;
use crate::spans::{Span, M};
use crate::sql::ast::{SelectStatement, SelectStatementView};
use crate::sql::{emit, emitted};
use crate::{parse, parsed, Error, ErrorView};
use merger::{lemma_merge_step_nesting, merge_step, must_wrap, ColumnsStateView, Merger};
use vstd::prelude::*;

verus! {

/// Why a query cannot be converted.
#[derive(Debug, Clone, PartialEq, Eq)]
pub enum ConverterError {
    /// An expression that yields a value stands where a condition is needed.
    ExpressionNotCondition { span: Span },
    /// The query uses something that has no conversion yet.
    NotImplemented { span: Span, feature: String },
}

/// The view of [`ConverterError`]: the same value, with sequences for its strings and vectors.
pub enum ConverterErrorView {
    ExpressionNotCondition { span: Span },
    NotImplemented { span: Span, feature: Seq<char> },
}

impl DeepView for ConverterError {
    type V = ConverterErrorView;

    open spec fn deep_view(&self) -> ConverterErrorView {
        match self {
            ConverterError::ExpressionNotCondition { span } => {
                ConverterErrorView::ExpressionNotCondition { span: *span }
            },
            ConverterError::NotImplemented { span, feature } => ConverterErrorView::NotImplemented {
                span: *span,
                feature: feature@,
            },
        }
    }
}

/// Why the text of a query has no SQL text.
#[allow(inconsistent_fields)]
#[derive(Debug, Clone, PartialEq)]
pub enum KqlToSqlError {
    /// Parts of the text are no tokens.
    Lexer { errors: Vec<LexerError> },
    /// The tokens are no query.
    Parser { error: ParserError },
    /// The query cannot be converted.
    Converter { error: ConverterError },
    /// The statement cannot be printed.
    Emitter { message: String },
}

/// The view of [`KqlToSqlError`]: the same value, with sequences for its strings and vectors.
#[allow(inconsistent_fields)]
pub enum KqlToSqlErrorView {
    Lexer { errors: Seq<LexerError> },
    Parser { error: ParserErrorView },
    Converter { error: ConverterErrorView },
    Emitter { message: Seq<char> },
}

impl DeepView for KqlToSqlError {
    type V = KqlToSqlErrorView;

    open spec fn deep_view(&self) -> KqlToSqlErrorView {
        match self {
            KqlToSqlError::Lexer { errors } => KqlToSqlErrorView::Lexer { errors: errors@ },
            KqlToSqlError::Parser { error } => KqlToSqlErrorView::Parser {
                error: error.deep_view(),
            },
            KqlToSqlError::Converter { error } => KqlToSqlErrorView::Converter {
                error: error.deep_view(),
            },
            KqlToSqlError::Emitter { message } => KqlToSqlErrorView::Emitter {
                message: message@,
            },
        }
    }
}

/// The columns state and the head after the operators of a query, folded in
/// from the first to the last; the first error ends it. It starts from the
/// statement that selects everything from the table.
pub open spec fn merged(
    table: Seq<char>,
    operators: Seq<(M<Seq<char>>, TabularOperatorView)>,
) -> Result<(ColumnsStateView, SelectStatementView), ConverterErrorView>
    decreases operators.len(),
{
    if operators.len() == 0 {
        Ok((ColumnsStateView::Unmodified, SelectStatementView::simple(table)))
    } else {
        match merged(table, operators.drop_last()) {
            Err(error) => Err(error),
            Ok((state, head)) => merge_step(state, head, operators.last().0, operators.last().1),
        }
    }
}

/// The statement that a query converts to.
pub open spec fn conversion(query: QueryView) -> Result<SelectStatementView, ConverterErrorView> {
    match merged(query.table.value, query.operators) {
        Ok((_, head)) => Ok(head),
        Err(error) => Err(error),
    }
}

/// A query without operators selects everything from its table: its SQL
/// text is `SELECT *`, a line break, `FROM`, the table, and a line break.
pub proof fn lemma_query_without_operators(query: QueryView)
    requires
        query.operators.len() == 0,
    ensures
        conversion(query) == Ok::<SelectStatementView, ConverterErrorView>(
            SelectStatementView::simple(query.table.value),
        ),
        emitted(SelectStatementView::simple(query.table.value)) == Ok::<Seq<char>, Seq<char>>(
            "SELECT *\nFROM "@ + query.table.value + "\n"@,
        ),
{
    let statement = SelectStatementView::simple(query.table.value);
    let items = crate::sql::select_items(statement.select);
    reveal_strlit("SELECT *\nFROM ");
    reveal_strlit("SELECT ");
    reveal_strlit("FROM ");
    reveal_strlit("*");
    reveal_strlit("\n");
    assert(items =~= seq!["*"@]);
    assert(crate::sql::joined_text(items, ", "@) == "*"@);
    assert(crate::text::indentation(0) =~= Seq::empty());
    assert(crate::sql::statement_text(statement, 0) =~= "SELECT *\nFROM "@ + query.table.value
        + "\n"@);
}

/// How many of the operators have to wrap the head that they meet.
pub open spec fn wraps(table: Seq<char>, operators: Seq<(M<Seq<char>>, TabularOperatorView)>) -> nat
    decreases operators.len(),
{
    if operators.len() == 0 {
        0
    } else {
        wraps(table, operators.drop_last()) + match merged(table, operators.drop_last()) {
            Ok((state, head)) => if must_wrap(state, head, operators.last().1) {
                1nat
            } else {
                0nat
            },
            Err(_) => 0nat,
        }
    }
}

/// A query that converts holds only limits, projections and filters, and its
/// statement is nested as deep as the number of operators that had to wrap:
/// no deeper.
pub proof fn lemma_nesting_is_wraps(
    table: Seq<char>,
    operators: Seq<(M<Seq<char>>, TabularOperatorView)>,
)
    requires
        merged(table, operators) is Ok,
    ensures
        merged(table, operators)->Ok_0.1.nesting() == wraps(table, operators),
        wraps(table, operators) <= operators.len(),
        forall|i: int|
            0 <= i < operators.len() ==> {
                let operator = (#[trigger] operators[i]).1;
                operator is Limit || operator is Project || operator is Where
            },
    decreases operators.len(),
{
    if operators.len() > 0 {
        let front = operators.drop_last();
        lemma_nesting_is_wraps(table, front);
        let (state, head) = merged(table, front)->Ok_0;
        lemma_merge_step_nesting(state, head, operators.last().0, operators.last().1);
        assert forall|i: int| 0 <= i < operators.len() implies {
            let operator = (#[trigger] operators[i]).1;
            operator is Limit || operator is Project || operator is Where
        } by {
            if i < front.len() {
                assert(operators[i] == front[i]);
            }
        }
    }
}

/// Converts a query into one `SELECT` statement.
pub fn convert(query: Query) -> (result: Result<SelectStatement, ConverterError>)
    ensures
        result_view(result) == conversion(query.deep_view()),
{
    let ghost table = query.table.value@;
    let ghost operators = query.deep_view().operators;
    let mut merger = Merger::new();
    let mut head = SelectStatement::simple(query.table.value);
    assert(operators.take(0) =~= Seq::empty());
    for pair in it: query.operators
        invariant
            table == query.table.value@,
            operators == query.deep_view().operators,
            it.seq() == query.operators@,
            merged(table, operators.take(it.index() as int)) == Ok::<
                (ColumnsStateView, SelectStatementView),
                ConverterErrorView,
            >((merger.deep_view(), head.deep_view())),
    {
        let ghost i = it.index() as int;
        assert(operators.take(i + 1).drop_last() =~= operators.take(i));
        assert(operators.take(i + 1).last() == operators[i]);
        assert(operators[i] == (pair.0.deep_view(), pair.1.deep_view()));
        let (name, operator) = pair;
        match merger.merge_operator(head, name, operator) {
            Ok((next_merger, next_head)) => {
                merger = next_merger;
                head = next_head;
            },
            Err(error) => {
                proof {
                    lemma_merged_error(table, operators, i + 1);
                }
                return Err(error);
            },
        }
    }
    assert(operators.take(operators.len() as int) =~= operators);
    Ok(head)
}

/// The SQL text for the text of a query: the text of the
/// statement that the query converts to, or the first error on the way.
pub open spec fn sql_of(text: Seq<char>) -> Result<Seq<char>, KqlToSqlErrorView> {
    match parsed(text) {
        Err(ErrorView::Lexer { errors }) => Err(KqlToSqlErrorView::Lexer { errors }),
        Err(ErrorView::Parser { error }) => Err(KqlToSqlErrorView::Parser { error }),
        Ok(query) => match conversion(query) {
            Err(error) => Err(KqlToSqlErrorView::Converter { error }),
            Ok(statement) => match emitted(statement) {
                Ok(sql) => Ok(sql),
                Err(message) => Err(KqlToSqlErrorView::Emitter { message }),
            },
        },
    }
}

/// Turns the text of a KQL query into the text of a SQL statement.
pub fn kql_to_sql(kql: String) -> (result: Result<String, KqlToSqlError>)
    ensures
        match result {
            Ok(sql) => sql_of(kql@) == Ok::<Seq<char>, KqlToSqlErrorView>(sql@),
            Err(error) => sql_of(kql@) == Err::<Seq<char>, KqlToSqlErrorView>(
                error.deep_view(),
            ),
        },
{
    let kql_ast = match parse(kql) {
        Ok(ast) => ast,
        Err(Error::Lexer { errors }) => {
            return Err(KqlToSqlError::Lexer { errors });
        },
        Err(Error::Parser { error }) => {
            return Err(KqlToSqlError::Parser { error });
        },
    };

    let sql_ast = match convert(kql_ast) {
        Ok(result) => result,
        Err(error) => {
            return Err(KqlToSqlError::Converter { error });
        },
    };

    match emit(&sql_ast) {
        Ok(sql) => Ok(sql),
        Err(message) => Err(KqlToSqlError::Emitter { message }),
    }
}

/// An error among the first `count` operators is the error of them all.
pub proof fn lemma_merged_error(
    table: Seq<char>,
    operators: Seq<(M<Seq<char>>, TabularOperatorView)>,
    count: int,
)
    requires
        0 <= count <= operators.len(),
        merged(table, operators.take(count)) is Err,
    ensures
        merged(table, operators) == merged(table, operators.take(count)),
    decreases operators.len() - count,
{
    if count < operators.len() {
        assert(operators.take(count + 1).drop_last() =~= operators.take(count));
        lemma_merged_error(table, operators, count + 1);
    } else {
        assert(operators.take(count) =~= operators);
    }
}

} // verus!
