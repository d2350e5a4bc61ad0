//! From pipe-structured KQL queries to nested SQL `SELECT` statements.
//!
//! The text of a query is split into tokens ([`lexer`]), the tokens are
//! parsed into a syntax tree ([`parser`], [`ast`]), the tree is converted
//! into the syntax tree of one SQL statement ([`converter`]), and that
//! statement is printed ([`sql`]). [`converter::kql_to_sql`] does all of it.
//!
//! Every function says in its contract what it yields, over the views of
//! its values: the same values with sequences for their strings and
//! vectors. What the steps yield is defined by specification functions: the
//! rules of the tokens, the grammar, the rules for folding an operator into
//! a statement or wrapping the statement, and the text of a statement. What
//! holds of every input is stated and proved next to these definitions, in
//! proof functions.

/// KQL Abstract Syntax Tree
pub mod ast;
/// Conversion of a KQL query into a SQL statement
pub mod converter;
/// KQL Tokenizer/Lexer
pub mod lexer;
/// Real-number literals
pub mod numbers;
/// KQL Parser
pub mod parser;
/// Results and their views
pub mod results;
/// Spans of the query text
pub mod spans;
/// SQL Abstract Syntax Tree and its text
pub mod sql;
/// Text building
pub mod text;

use ast::query::{Query, QueryView};
use results::result_view;
use lexer::chars::byte_len;
use lexer::{error_spans, reach, tokenize, tokens_of, LexerError};
use parser::query::{lemma_query_fits_more, query_fits};
use parser::{ParserError, ParserErrorView};
use vstd::prelude::*;

verus! {

/// Why a text is no query.
#[derive(Debug, Clone, PartialEq)]
pub enum Error {
    /// Parts of the text are no tokens.
    Lexer { errors: Vec<LexerError> },
    /// The tokens are no query.
    Parser { error: ParserError },
}

/// The view of [`Error`]: the same value, with sequences for its strings and vectors.
pub enum ErrorView {
    Lexer { errors: Seq<LexerError> },
    Parser { error: ParserErrorView },
}

impl DeepView for Error {
    type V = ErrorView;

    open spec fn deep_view(&self) -> ErrorView {
        match self {
            Error::Lexer { errors } => ErrorView::Lexer { errors: errors@ },
            Error::Parser { error } => ErrorView::Parser { error: error.deep_view() },
        }
    }
}

/// The query that a text is: every error among its tokens where there is
/// one, else what the tokens parse to.
pub open spec fn parsed(text: Seq<char>) -> Result<QueryView, ErrorView> {
    let tokens = tokens_of(text);
    if error_spans(tokens).len() > 0 {
        Err(ErrorView::Lexer { errors: error_spans(tokens) })
    } else {
        match parser::query::query(tokens, 0).result {
            Ok(query) => Ok(query),
            Err(error) => Err(ErrorView::Parser { error }),
        }
    }
}

/// Parses the text of a query.
///
/// In the query that is read, no range reaches past the end of the text,
/// the table and the names of the operators stand one after the other, and
/// the ranges of the parts of every expression fit together: each part
/// inside the expression, and the parts one after the other.
pub fn parse(source_code: String) -> (result: Result<Query, Error>)
    ensures
        result_view(result) == parsed(source_code@),
        result matches Ok(query) ==> query_fits(query.deep_view(), byte_len(source_code@) as int),
{
    let tokens = match tokenize(source_code) {
        Ok(token_data) => token_data,
        Err(errors) => {
            return Err(Error::Lexer { errors });
        },
    };
    let ghost tape = tokens.deep_view();

    let ast = match parser::parse(tokens) {
        Ok(query) => query,
        Err(error) => {
            return Err(Error::Parser { error });
        },
    };
    proof {
        if tape.len() > 0 {
            assert(tape[tape.len() - 1].span.end() <= byte_len(source_code@));
        }
        lemma_query_fits_more(ast.deep_view(), reach(tape), byte_len(source_code@) as int);
    }

    Ok(ast)
}

} // verus!
