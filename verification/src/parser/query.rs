//! Queries: a table name and the operators after it, each behind a `|`.

use crate::ast::query::{
    ColumnDefinition, ColumnDefinitionView, Columns, ColumnsView, JoinAttribute,
    JoinAttributeView, JoinKind, JoinParams, NullsPosition, Query, QueryView, SortOrder, Sorting,
    SortingView, TabularOperator, TabularOperatorView,
};
use crate::lexer::{in_order, lemma_token_within_reach, reach, Token, TokenView};
use crate::parser::expression::{
    expression, lemma_expression_covers, lemma_expression_nested, nested, parse_expression,
    remaining, stuck,
};
use crate::parser::{
    advanced, agrees, dollar_term, general_failure, parse_dollar_term, parse_term,
    stands_at, term, token_at, unexpected_failure, unsupported_failure, ParseInput, Parsed,
    ParserError, ParserErrorView, Tape,
};
use crate::spans::{join_spans, joined, precedes, span_precedes_span, Span, M};
use crate::text::push_char;
use vstd::prelude::*;

verus! {

/// Reads `name` or `name = expression`.
pub open spec fn column_definition(tape: Tape, index: usize) -> Parsed<ColumnDefinitionView> {
    let name = term(tape, index);
    match name.result {
        Err(error) => Parsed { index: name.index, result: Err(error) },
        Ok(column) => if stands_at(tape, name.index, TokenView::Assign) {
            let value = expression(tape, advanced(name.index), 0);
            match value.result {
                Err(error) => Parsed { index: value.index, result: Err(error) },
                Ok(expr) => Parsed {
                    index: value.index,
                    result: Ok(ColumnDefinitionView { column, expr: Some(expr) }),
                },
            }
        } else {
            Parsed { index: name.index, result: Ok(ColumnDefinitionView { column, expr: None }) }
        },
    }
}

/// Reads the column definitions that follow those read already, each after
/// a comma.
pub open spec fn more_definitions(
    tape: Tape,
    index: usize,
    columns: Seq<ColumnDefinitionView>,
) -> Parsed<Seq<ColumnDefinitionView>>
    decreases remaining(tape, index),
    when tape.len() <= usize::MAX
{
    if stands_at(tape, index, TokenView::Comma) {
        let next = column_definition(tape, (index + 1) as usize);
        match next.result {
            Err(error) => Parsed { index: next.index, result: Err(error) },
            Ok(column) => if index < next.index {
                more_definitions(tape, next.index, columns.push(column))
            } else {
                stuck(next.index)
            },
        }
    } else {
        Parsed { index, result: Ok(columns) }
    }
}

/// Reads one column definition or more, separated by commas.
pub open spec fn definitions(tape: Tape, index: usize) -> Parsed<Seq<ColumnDefinitionView>> {
    let first = column_definition(tape, index);
    match first.result {
        Err(error) => Parsed { index: first.index, result: Err(error) },
        Ok(column) => more_definitions(tape, first.index, seq![column]),
    }
}

/// Reads the names that follow those read already, each after a comma.
pub open spec fn more_names(tape: Tape, index: usize, names: Seq<M<Seq<char>>>) -> Parsed<
    Seq<M<Seq<char>>>,
>
    decreases remaining(tape, index),
    when tape.len() <= usize::MAX
{
    if stands_at(tape, index, TokenView::Comma) {
        let next = term(tape, (index + 1) as usize);
        match next.result {
            Err(error) => Parsed { index: next.index, result: Err(error) },
            Ok(name) => more_names(tape, next.index, names.push(name)),
        }
    } else {
        Parsed { index, result: Ok(names) }
    }
}

/// Reads the columns of a `distinct`: `*`, or one name or more, separated
/// by commas.
pub open spec fn columns(tape: Tape, index: usize) -> Parsed<ColumnsView> {
    if stands_at(tape, index, TokenView::Star) {
        Parsed { index: advanced(index), result: Ok(ColumnsView::Wildcard(tape[index as int].span)) }
    } else {
        let first = term(tape, index);
        match first.result {
            Err(error) => Parsed { index: first.index, result: Err(error) },
            Ok(name) => {
                let rest = more_names(tape, first.index, seq![name]);
                match rest.result {
                    Err(error) => Parsed { index: rest.index, result: Err(error) },
                    Ok(names) => Parsed { index: rest.index, result: Ok(ColumnsView::Explicit(names)) },
                }
            },
        }
    }
}

/// Reads the rest of a `distinct`: its columns.
pub open spec fn distinct(tape: Tape, index: usize) -> Parsed<TabularOperatorView> {
    let list = columns(tape, index);
    match list.result {
        Err(error) => Parsed { index: list.index, result: Err(error) },
        Ok(value) => Parsed {
            index: list.index,
            result: Ok(TabularOperatorView::Distinct { columns: value }),
        },
    }
}

/// Reads the rest of a `where`: one expression.
pub open spec fn filter(tape: Tape, index: usize) -> Parsed<TabularOperatorView> {
    let condition = expression(tape, index, 0);
    match condition.result {
        Err(error) => Parsed { index: condition.index, result: Err(error) },
        Ok(expr) => Parsed { index: condition.index, result: Ok(TabularOperatorView::Where { expr }) },
    }
}

/// Reads nothing of an operator that is not parsed yet: the error names the
/// token before the position, the last of the operator's name.
pub open spec fn not_yet_supported(tape: Tape, index: usize, feature: Seq<char>) -> Parsed<
    TabularOperatorView,
> {
    Parsed { index, result: Err(unsupported_failure(tape, index, feature)) }
}

/// Reads the argument of a `limit`: one integer.
pub open spec fn limit(tape: Tape, index: usize) -> Parsed<TabularOperatorView> {
    Parsed {
        index: advanced(index),
        result: match token_at(tape, index as int) {
            None => Err(ParserErrorView::EndOfInput),
            Some(found) => match found.value {
                TokenView::IntLiteral(value) => Ok(
                    TabularOperatorView::Limit { limit: M { span: found.span, value: value as i64 } },
                ),
                TokenView::LongLiteral(value) => Ok(
                    TabularOperatorView::Limit { limit: M { span: found.span, value } },
                ),
                _ => Err(
                    unexpected_failure(
                        tape,
                        advanced(index),
                        "Expected number literal for limit argument"@,
                    ),
                ),
            },
        },
    }
}

/// Whether nothing of a query follows at a position: the tape ends there,
/// or a `|` stands there, or the `)` that ends a query in parentheses.
pub open spec fn nothing_follows(tape: Tape, index: usize) -> bool {
    match token_at(tape, index as int) {
        None => true,
        Some(found) => found.value == TokenView::Pipe || found.value == TokenView::RParen,
    }
}

/// Reads the columns of a `project`: none where nothing follows, and nothing
/// is read then; else one definition or more, separated by commas.
pub open spec fn project(tape: Tape, index: usize) -> Parsed<TabularOperatorView> {
    if nothing_follows(tape, index) {
        Parsed { index, result: Ok(TabularOperatorView::Project { columns: Seq::empty() }) }
    } else {
        let list = definitions(tape, index);
        match list.result {
            Err(error) => Parsed { index: list.index, result: Err(error) },
            Ok(columns) => Parsed { index: list.index, result: Ok(TabularOperatorView::Project { columns }) },
        }
    }
}

/// Reads `asc` or `desc`, if one of them stands there.
pub open spec fn sort_order(tape: Tape, index: usize) -> (Option<M<SortOrder>>, usize) {
    match term(tape, index).result {
        Ok(word) => if word.value == "asc"@ {
            (Some(M { span: word.span, value: SortOrder::Ascending }), advanced(index))
        } else if word.value == "desc"@ {
            (Some(M { span: word.span, value: SortOrder::Descending }), advanced(index))
        } else {
            (None, index)
        },
        Err(_) => (None, index),
    }
}

/// Reads `nulls first` or `nulls last`, if `nulls` stands there.
pub open spec fn nulls_position(tape: Tape, index: usize) -> Parsed<
    Option<(Span, M<NullsPosition>)>,
> {
    let keyword = term(tape, index);
    match keyword.result {
        Ok(word) => if word.value == "nulls"@ {
            let position = term(tape, keyword.index);
            match position.result {
                Err(error) => Parsed { index: position.index, result: Err(error) },
                Ok(place) => if place.value == "first"@ {
                    Parsed {
                        index: position.index,
                        result: Ok(
                            Some((word.span, M { span: place.span, value: NullsPosition::First })),
                        ),
                    }
                } else if place.value == "last"@ {
                    Parsed {
                        index: position.index,
                        result: Ok(
                            Some((word.span, M { span: place.span, value: NullsPosition::Last })),
                        ),
                    }
                } else {
                    Parsed {
                        index: position.index,
                        result: Err(
                            unexpected_failure(tape, position.index, "Expected nulls position"@),
                        ),
                    }
                },
            }
        } else {
            Parsed { index, result: Ok(None) }
        },
        Err(_) => Parsed { index, result: Ok(None) },
    }
}

/// Reads one sorting: a column name, then `asc` or `desc` if it is there,
/// then `nulls first` or `nulls last` if it is there.
pub open spec fn sorting(tape: Tape, index: usize) -> Parsed<SortingView> {
    let name = term(tape, index);
    match name.result {
        Err(_) => Parsed {
            index: name.index,
            result: Err(unexpected_failure(tape, name.index, "Expected column name"@)),
        },
        Ok(column) => {
            let (order, after_order) = sort_order(tape, name.index);
            let nulls = nulls_position(tape, after_order);
            match nulls.result {
                Err(error) => Parsed { index: nulls.index, result: Err(error) },
                Ok(position) => Parsed {
                    index: nulls.index,
                    result: Ok(SortingView { column, order, nulls: position }),
                },
            }
        },
    }
}

/// Reads the sortings that follow those read already, each after a comma.
pub open spec fn more_sortings(tape: Tape, index: usize, sortings: Seq<SortingView>) -> Parsed<
    Seq<SortingView>,
>
    decreases remaining(tape, index),
    when tape.len() <= usize::MAX
{
    if stands_at(tape, index, TokenView::Comma) {
        let next = sorting(tape, (index + 1) as usize);
        match next.result {
            Err(error) => Parsed { index: next.index, result: Err(error) },
            Ok(value) => if index < next.index {
                more_sortings(tape, next.index, sortings.push(value))
            } else {
                stuck(next.index)
            },
        }
    } else {
        Parsed { index, result: Ok(sortings) }
    }
}

/// Reads one sorting or more, separated by commas.
pub open spec fn sortings(tape: Tape, index: usize) -> Parsed<Seq<SortingView>> {
    let first = sorting(tape, index);
    match first.result {
        Err(error) => Parsed { index: first.index, result: Err(error) },
        Ok(value) => more_sortings(tape, first.index, seq![value]),
    }
}

/// Reads the keyword `by`.
pub open spec fn by_keyword(tape: Tape, index: usize) -> Parsed<Span> {
    let word = term(tape, index);
    match word.result {
        Err(error) => Parsed { index: word.index, result: Err(error) },
        Ok(found) => if found.value == "by"@ {
            Parsed { index: word.index, result: Ok(found.span) }
        } else {
            Parsed {
                index: word.index,
                result: Err(unexpected_failure(tape, word.index, "Expected 'by' keyword"@)),
            }
        },
    }
}

/// Reads the rest of a `sort`: `by`, and one sorting or more, separated by
/// commas.
pub open spec fn sort(tape: Tape, index: usize) -> Parsed<TabularOperatorView> {
    let by = by_keyword(tape, index);
    match by.result {
        Err(error) => Parsed { index: by.index, result: Err(error) },
        Ok(by_kwd) => {
            let rest = sortings(tape, by.index);
            match rest.result {
                Err(error) => Parsed { index: rest.index, result: Err(error) },
                Ok(list) => Parsed {
                    index: rest.index,
                    result: Ok(TabularOperatorView::Sort { by_kwd, sortings: list }),
                },
            }
        },
    }
}

/// Reads the rest of a `summarize`: the result columns, `by`, and the
/// grouping columns.
pub open spec fn summarize(tape: Tape, index: usize) -> Parsed<TabularOperatorView> {
    let results = definitions(tape, index);
    match results.result {
        Err(error) => Parsed { index: results.index, result: Err(error) },
        Ok(result_columns) => {
            let by = by_keyword(tape, results.index);
            match by.result {
                Err(error) => Parsed { index: by.index, result: Err(error) },
                Ok(by_kwd) => {
                    let groups = definitions(tape, by.index);
                    match groups.result {
                        Err(error) => Parsed { index: groups.index, result: Err(error) },
                        Ok(grouping_columns) => Parsed {
                            index: groups.index,
                            result: Ok(
                                TabularOperatorView::Summarize {
                                    result_columns,
                                    by_kwd,
                                    grouping_columns,
                                },
                            ),
                        },
                    }
                },
            }
        },
    }
}

/// The kind of join that a word names.
pub open spec fn join_kind_named(word: Seq<char>) -> Option<JoinKind> {
    if word == "innerunique"@ {
        Some(JoinKind::InnerUnique)
    } else if word == "inner"@ {
        Some(JoinKind::Inner)
    } else if word == "leftouter"@ {
        Some(JoinKind::LeftOuter)
    } else if word == "rightouter"@ {
        Some(JoinKind::RightOuter)
    } else if word == "fullouter"@ {
        Some(JoinKind::FullOuter)
    } else if word == "leftanti"@ {
        Some(JoinKind::LeftAnti)
    } else if word == "rightanti"@ {
        Some(JoinKind::RightAnti)
    } else if word == "leftsemi"@ {
        Some(JoinKind::LeftSemi)
    } else if word == "rightsemi"@ {
        Some(JoinKind::RightSemi)
    } else {
        None
    }
}

/// Reads the kind of a join.
pub open spec fn join_kind(tape: Tape, index: usize) -> Parsed<JoinKind> {
    let word = term(tape, index);
    match word.result {
        Err(error) => Parsed { index: word.index, result: Err(error) },
        Ok(found) => match join_kind_named(found.value) {
            Some(kind) => Parsed { index: word.index, result: Ok(kind) },
            None => Parsed {
                index: word.index,
                result: Err(
                    unexpected_failure(
                        tape,
                        word.index,
                        "Expected join parameter or '(table_name)'"@,
                    ),
                ),
            },
        },
    }
}

/// Reads one token, which has to be `token`.
pub open spec fn symbol(tape: Tape, index: usize, token: TokenView, description: Seq<char>) -> Parsed<
    (),
> {
    Parsed {
        index: advanced(index),
        result: match token_at(tape, index as int) {
            None => Err(ParserErrorView::EndOfInput),
            Some(found) => if found.value == token {
                Ok(())
            } else {
                Err(unexpected_failure(tape, advanced(index), description))
            },
        },
    }
}

/// Reads `$word . name`, where `word` is the side asked for, and yields the
/// range of `$word` and the name.
pub open spec fn side_column(tape: Tape, index: usize, side: Seq<char>, expected: Seq<char>) -> Parsed<
    (Span, M<Seq<char>>),
> {
    let keyword = dollar_term(tape, index);
    match keyword.result {
        Err(error) => Parsed { index: keyword.index, result: Err(error) },
        Ok(word) => if word.value != side {
            Parsed {
                index: keyword.index,
                result: Err(unexpected_failure(tape, keyword.index, expected)),
            }
        } else {
            let dot = symbol(tape, keyword.index, TokenView::Dot, "Dot expected"@);
            match dot.result {
                Err(error) => Parsed { index: dot.index, result: Err(error) },
                Ok(_) => {
                    let name = term(tape, dot.index);
                    match name.result {
                        Err(error) => Parsed { index: name.index, result: Err(error) },
                        Ok(column) => Parsed { index: name.index, result: Ok((word.span, column)) },
                    }
                },
            }
        },
    }
}

/// Reads what two tables are joined on: a name, or
/// `$left . name == $right . name`.
pub open spec fn join_attribute(tape: Tape, index: usize) -> Parsed<JoinAttributeView> {
    match token_at(tape, index as int) {
        None => Parsed { index: advanced(index), result: Err(ParserErrorView::EndOfInput) },
        Some(found) => match found.value {
            TokenView::Term(name) => Parsed {
                index: advanced(index),
                result: Ok(JoinAttributeView::Matching { name: M { span: found.span, value: name } }),
            },
            TokenView::DollarTerm(_) => {
                let left = side_column(tape, index, "left"@, "'left' keyword expected"@);
                match left.result {
                    Err(error) => Parsed { index: left.index, result: Err(error) },
                    Ok((left_kwd, left_name)) => {
                        let equals = symbol(tape, left.index, TokenView::EQ, "'==' expected"@);
                        match equals.result {
                            Err(error) => Parsed { index: equals.index, result: Err(error) },
                            Ok(_) => {
                                let right = side_column(
                                    tape,
                                    equals.index,
                                    "right"@,
                                    "'right' keyword expected"@,
                                );
                                match right.result {
                                    Err(error) => Parsed { index: right.index, result: Err(error) },
                                    Ok((right_kwd, right_name)) => Parsed {
                                        index: right.index,
                                        result: Ok(
                                            JoinAttributeView::NonMatching {
                                                left_kwd,
                                                left_name,
                                                right_kwd,
                                                right_name,
                                            },
                                        ),
                                    },
                                }
                            },
                        }
                    },
                }
            },
            _ => Parsed {
                index: advanced(index),
                result: Err(unexpected_failure(tape, advanced(index), "Term expected"@)),
            },
        },
    }
}

/// Reads the attributes that follow those read already, each after a comma.
pub open spec fn more_attributes(
    tape: Tape,
    index: usize,
    attributes: Seq<JoinAttributeView>,
) -> Parsed<Seq<JoinAttributeView>>
    decreases remaining(tape, index),
    when tape.len() <= usize::MAX
{
    if stands_at(tape, index, TokenView::Comma) {
        let next = join_attribute(tape, (index + 1) as usize);
        match next.result {
            Err(error) => Parsed { index: next.index, result: Err(error) },
            Ok(attribute) => if index < next.index {
                more_attributes(tape, next.index, attributes.push(attribute))
            } else {
                stuck(next.index)
            },
        }
    } else {
        Parsed { index, result: Ok(attributes) }
    }
}

/// Reads one attribute or more, separated by commas.
pub open spec fn attributes(tape: Tape, index: usize) -> Parsed<Seq<JoinAttributeView>> {
    let first = join_attribute(tape, index);
    match first.result {
        Err(error) => Parsed { index: first.index, result: Err(error) },
        Ok(attribute) => more_attributes(tape, first.index, seq![attribute]),
    }
}

/// Reads the words of a name that follow those read already, each after a
/// `-` that touches the word before it and the word after it.
pub open spec fn more_kebab(tape: Tape, index: usize, name: M<Seq<char>>) -> Parsed<M<Seq<char>>>
    decreases remaining(tape, index),
    when tape.len() <= usize::MAX
{
    if stands_at(tape, index, TokenView::Sub) {
        match term(tape, (index + 1) as usize).result {
            Ok(word) => if precedes(name.span, tape[index as int].span) && precedes(
                tape[index as int].span,
                word.span,
            ) {
                more_kebab(
                    tape,
                    (index + 2) as usize,
                    M {
                        span: joined(name.span, word.span),
                        value: name.value + seq!['-'] + word.value,
                    },
                )
            } else {
                Parsed { index, result: Ok(name) }
            },
            Err(_) => Parsed { index, result: Ok(name) },
        }
    } else {
        Parsed { index, result: Ok(name) }
    }
}

/// Reads a name of one word or more, joined by `-` without any space.
pub open spec fn kebab_term(tape: Tape, index: usize) -> Parsed<M<Seq<char>>> {
    let first = term(tape, index);
    match first.result {
        Err(error) => Parsed { index: first.index, result: Err(error) },
        Ok(name) => more_kebab(tape, first.index, name),
    }
}

/// Reads a query: the name of a table and the operators applied to it.
pub open spec fn query(tape: Tape, index: usize) -> Parsed<QueryView>
    decreases remaining(tape, index), 5nat,
    when tape.len() <= usize::MAX
{
    let name = term(tape, index);
    match name.result {
        Err(error) => Parsed { index: name.index, result: Err(error) },
        Ok(table) => {
            let rest = operators(tape, name.index, Seq::empty());
            match rest.result {
                Err(error) => Parsed { index: rest.index, result: Err(error) },
                Ok(list) => Parsed { index: rest.index, result: Ok(QueryView { table, operators: list }) },
            }
        },
    }
}

/// Reads the operators that follow those read already, each after a `|`.
pub open spec fn operators(
    tape: Tape,
    index: usize,
    list: Seq<(M<Seq<char>>, TabularOperatorView)>,
) -> Parsed<Seq<(M<Seq<char>>, TabularOperatorView)>>
    decreases remaining(tape, index), 4nat,
    when tape.len() <= usize::MAX
{
    if stands_at(tape, index, TokenView::Pipe) {
        let next = operator(tape, (index + 1) as usize);
        match next.result {
            Err(error) => Parsed { index: next.index, result: Err(error) },
            Ok(value) => if index < next.index {
                operators(tape, next.index, list.push(value))
            } else {
                stuck(next.index)
            },
        }
    } else {
        Parsed { index, result: Ok(list) }
    }
}

/// Reads one operator: its name, and what the operator of that name takes.
pub open spec fn operator(tape: Tape, index: usize) -> Parsed<(M<Seq<char>>, TabularOperatorView)>
    decreases remaining(tape, index), 3nat,
    when tape.len() <= usize::MAX
{
    let name = kebab_term(tape, index);
    match name.result {
        Err(error) => Parsed { index: name.index, result: Err(error) },
        Ok(operator_name) => {
            let word = operator_name.value;
            let taken = if word == "count"@ {
                Parsed { index: name.index, result: Ok(TabularOperatorView::Count) }
            } else if word == "distinct"@ {
                distinct(tape, name.index)
            } else if word == "extend"@ {
                not_yet_supported(tape, name.index, "extend operator"@)
            } else if word == "join"@ {
                if index < name.index {
                    join(tape, name.index)
                } else {
                    stuck(name.index)
                }
            } else if word == "limit"@ || word == "take"@ {
                limit(tape, name.index)
            } else if word == "project"@ {
                project(tape, name.index)
            } else if word == "sort"@ || word == "order"@ {
                sort(tape, name.index)
            } else if word == "summarize"@ {
                summarize(tape, name.index)
            } else if word == "top"@ {
                not_yet_supported(tape, name.index, "top operator"@)
            } else if word == "where"@ {
                filter(tape, name.index)
            } else {
                Parsed {
                    index: name.index,
                    result: Err(
                        general_failure(tape, name.index, "No tabular operator with this name"@),
                    ),
                }
            };
            match taken.result {
                Err(error) => Parsed { index: taken.index, result: Err(error) },
                Ok(value) => Parsed { index: taken.index, result: Ok((operator_name, value)) },
            }
        },
    }
}

/// Reads the kind of a join, if `(` does not follow at once.
pub open spec fn join_params(tape: Tape, index: usize) -> Parsed<Option<JoinKind>> {
    if stands_at(tape, index, TokenView::LParen) {
        Parsed { index, result: Ok(None) }
    } else {
        let named = join_kind(tape, index);
        match named.result {
            Err(error) => Parsed { index: named.index, result: Err(error) },
            Ok(value) => Parsed { index: named.index, result: Ok(Some(value)) },
        }
    }
}

/// Reads the rest of a `join`: the kind if one is named, the other query in
/// parentheses, and one attribute or more, separated by commas.
pub open spec fn join(tape: Tape, index: usize) -> Parsed<TabularOperatorView>
    decreases remaining(tape, index), 2nat,
    when tape.len() <= usize::MAX
{
    let kind = join_params(tape, index);
    match kind.result {
        Err(error) => Parsed { index: kind.index, result: Err(error) },
        Ok(named) => {
            let open = symbol(
                tape,
                kind.index,
                TokenView::LParen,
                "Expected left paranthesis before table name"@,
            );
            match open.result {
                Err(error) => Parsed { index: open.index, result: Err(error) },
                Ok(_) => if index < open.index <= tape.len() {
                    let table = query(tape, open.index);
                    match table.result {
                        Err(error) => Parsed { index: table.index, result: Err(error) },
                        Ok(right_table) => join_end(tape, table.index, named, right_table),
                    }
                } else {
                    stuck(open.index)
                },
            }
        },
    }
}

/// Reads the end of a `join`, after the other query: `)` and the attributes.
pub open spec fn join_end(tape: Tape, index: usize, kind: Option<JoinKind>, right_table: QueryView) -> Parsed<
    TabularOperatorView,
> {
    let close = symbol(
        tape,
        index,
        TokenView::RParen,
        "Expected right paranthesis after table name"@,
    );
    match close.result {
        Err(error) => Parsed { index: close.index, result: Err(error) },
        Ok(_) => {
            let rest = attributes(tape, close.index);
            match rest.result {
                Err(error) => Parsed { index: rest.index, result: Err(error) },
                Ok(list) => Parsed {
                    index: rest.index,
                    result: Ok(
                        TabularOperatorView::Join {
                            params: JoinParams { kind },
                            right_table: Box::new(right_table),
                            attributes: list,
                        },
                    ),
                },
            }
        },
    }
}

/// A `project` that nothing follows is a projection without columns: the
/// word `project` at the end of the tape, before a `|` or before the `)` that
/// ends a query in parentheses is read as the operator, and nothing after it
/// is read.
pub proof fn lemma_project_alone_is_empty(tape: Tape, index: usize)
    requires
        tape.len() <= usize::MAX,
        index < tape.len(),
        tape[index as int].value == TokenView::Term("project"@),
        nothing_follows(tape, (index + 1) as usize),
    ensures
        operator(tape, index) == (Parsed {
            index: (index + 1) as usize,
            result: Ok::<(M<Seq<char>>, TabularOperatorView), ParserErrorView>(
                (
                    M { span: tape[index as int].span, value: "project"@ },
                    TabularOperatorView::Project { columns: Seq::empty() },
                ),
            ),
        }),
{
    reveal_strlit("project");
    reveal_strlit("count");
    reveal_strlit("distinct");
    reveal_strlit("extend");
    reveal_strlit("join");
    reveal_strlit("limit");
    reveal_strlit("take");
    let next = (index + 1) as usize;
    let name = M { span: tape[index as int].span, value: "project"@ };
    assert(term(tape, index) == Parsed { index: next, result: Ok(name) });
    assert(!stands_at(tape, next, TokenView::Sub));
    assert(kebab_term(tape, index) == Parsed { index: next, result: Ok(name) });
    assert("project"@.len() == 7);
    assert("project"@ != "count"@);
    assert("project"@ != "distinct"@);
    assert("project"@ != "extend"@);
    assert("project"@ != "join"@);
    assert("project"@ != "limit"@);
    assert("project"@ != "take"@);
}

/// A `|` that no name of an operator follows is an error.
pub proof fn lemma_pipe_needs_operator(
    tape: Tape,
    index: usize,
    list: Seq<(M<Seq<char>>, TabularOperatorView)>,
)
    requires
        tape.len() <= usize::MAX,
        stands_at(tape, index, TokenView::Pipe),
        !(token_at(tape, index + 1) matches Some(token) && token.value is Term),
    ensures
        operators(tape, index, list).result is Err,
{
    let next = (index + 1) as usize;
    assert(term(tape, next).result is Err);
    assert(kebab_term(tape, next).result is Err);
    assert(operator(tape, next).result is Err);
}

/// Whether the ranges of a column definition end within `bytes` bytes, and
/// those of its expression fit together.
pub open spec fn definition_fits(column: ColumnDefinitionView, bytes: int) -> bool {
    &&& column.column.span.end() <= bytes
    &&& column.expr matches Some(expr) ==> nested(expr) && expr.span.end() <= bytes
}

/// Whether the ranges of a sorting end within `bytes` bytes.
pub open spec fn sorting_fits(sorting: SortingView, bytes: int) -> bool {
    &&& sorting.column.span.end() <= bytes
    &&& sorting.order matches Some(order) ==> order.span.end() <= bytes
    &&& sorting.nulls matches Some(nulls) ==> nulls.0.end() <= bytes && nulls.1.span.end() <= bytes
}

/// Whether the ranges of a join attribute end within `bytes` bytes.
pub open spec fn attribute_fits(attribute: JoinAttributeView, bytes: int) -> bool {
    match attribute {
        JoinAttributeView::Matching { name } => name.span.end() <= bytes,
        JoinAttributeView::NonMatching { left_kwd, left_name, right_kwd, right_name } => {
            &&& left_kwd.end() <= bytes
            &&& left_name.span.end() <= bytes
            &&& right_kwd.end() <= bytes
            &&& right_name.span.end() <= bytes
        },
    }
}

/// Whether the ranges of an operator end within `bytes` bytes, those of its
/// names and keywords and those of its expressions, and the ranges of each
/// of its expressions fit together.
pub open spec fn operator_fits(operator: TabularOperatorView, bytes: int) -> bool
    decreases operator,
{
    match operator {
        TabularOperatorView::Count => true,
        TabularOperatorView::Distinct { columns } => match columns {
            ColumnsView::Explicit(names) => forall|i: int|
                0 <= i < names.len() ==> (#[trigger] names[i]).span.end() <= bytes,
            ColumnsView::Wildcard(span) => span.end() <= bytes,
        },
        TabularOperatorView::Extend { columns } => forall|i: int|
            0 <= i < columns.len() ==> (#[trigger] columns[i]).0.span.end() <= bytes && nested(
                columns[i].1,
            ) && columns[i].1.span.end() <= bytes,
        TabularOperatorView::Join { params: _, right_table, attributes } => {
            &&& query_fits(*right_table, bytes)
            &&& forall|i: int|
                0 <= i < attributes.len() ==> attribute_fits(#[trigger] attributes[i], bytes)
        },
        TabularOperatorView::Limit { limit } => limit.span.end() <= bytes,
        TabularOperatorView::Project { columns } => forall|i: int|
            0 <= i < columns.len() ==> definition_fits(#[trigger] columns[i], bytes),
        TabularOperatorView::Sort { by_kwd, sortings } => {
            &&& by_kwd.end() <= bytes
            &&& forall|i: int|
                0 <= i < sortings.len() ==> sorting_fits(#[trigger] sortings[i], bytes)
        },
        TabularOperatorView::Summarize { result_columns, by_kwd, grouping_columns } => {
            &&& by_kwd.end() <= bytes
            &&& forall|i: int|
                0 <= i < result_columns.len() ==> definition_fits(
                    #[trigger] result_columns[i],
                    bytes,
                )
            &&& forall|i: int|
                0 <= i < grouping_columns.len() ==> definition_fits(
                    #[trigger] grouping_columns[i],
                    bytes,
                )
        },
        TabularOperatorView::Top { limit, by_kwd, expr, order, nulls } => {
            &&& limit.span.end() <= bytes
            &&& by_kwd.end() <= bytes
            &&& nested(expr)
            &&& expr.span.end() <= bytes
            &&& order matches Some(value) ==> value.span.end() <= bytes
            &&& nulls matches Some(value) ==> value.0.end() <= bytes && value.1.span.end()
                <= bytes
        },
        TabularOperatorView::Where { expr } => nested(expr) && expr.span.end() <= bytes,
    }
}

/// Whether the table of a query and the names of its operators stand one
/// after the other, without overlap: the table ends before every name
/// begins, and of two names the earlier ends before the later begins. Their
/// starts increase strictly.
pub open spec fn names_in_order(
    table: M<Seq<char>>,
    operators: Seq<(M<Seq<char>>, TabularOperatorView)>,
) -> bool {
    &&& forall|i: int|
        0 <= i < operators.len() ==> table.span.end() <= (#[trigger] operators[i]).0.span.offset
            && table.span.offset < operators[i].0.span.offset
    &&& forall|i: int, j: int|
        0 <= i < j < operators.len() ==> (#[trigger] operators[i]).0.span.end() <= (
        #[trigger] operators[j]).0.span.offset && operators[i].0.span.offset
            < operators[j].0.span.offset
}

/// Whether the ranges of a query end within `bytes` bytes, that of its
/// table, those of the names of its operators and those of the operators,
/// the table and the names stand one after the other, and the ranges of
/// each of its expressions fit together.
pub open spec fn query_fits(query: QueryView, bytes: int) -> bool
    decreases query,
{
    &&& query.table.span.end() <= bytes
    &&& names_in_order(query.table, query.operators)
    &&& forall|i: int|
        0 <= i < query.operators.len() ==> (#[trigger] query.operators[i]).0.span.end() <= bytes
            && operator_fits(query.operators[i].1, bytes)
}

/// Whether every column definition of a list ends within `bytes` bytes.
pub open spec fn definitions_fit(columns: Seq<ColumnDefinitionView>, bytes: int) -> bool {
    forall|i: int| 0 <= i < columns.len() ==> definition_fits(#[trigger] columns[i], bytes)
}

/// Ranges that end within some bytes end within more bytes as well.
pub proof fn lemma_query_fits_more(query: QueryView, bytes: int, more: int)
    requires
        query_fits(query, bytes),
        bytes <= more,
    ensures
        query_fits(query, more),
    decreases query,
{
    assert forall|i: int| 0 <= i < query.operators.len() implies (
    #[trigger] query.operators[i]).0.span.end() <= more && operator_fits(
        query.operators[i].1,
        more,
    ) by {
        lemma_operator_fits_more(query.operators[i].1, bytes, more);
    }
}

/// Ranges that end within some bytes end within more bytes as well.
pub proof fn lemma_operator_fits_more(operator: TabularOperatorView, bytes: int, more: int)
    requires
        operator_fits(operator, bytes),
        bytes <= more,
    ensures
        operator_fits(operator, more),
    decreases operator,
{
    match operator {
        TabularOperatorView::Join { params: _, right_table, attributes } => {
            lemma_query_fits_more(*right_table, bytes, more);
            assert forall|i: int| 0 <= i < attributes.len() implies attribute_fits(
                #[trigger] attributes[i],
                more,
            ) by {
                assert(attribute_fits(attributes[i], bytes));
            }
        },
        TabularOperatorView::Project { columns } => {
            assert forall|i: int| 0 <= i < columns.len() implies definition_fits(
                #[trigger] columns[i],
                more,
            ) by {
                assert(definition_fits(columns[i], bytes));
            }
        },
        TabularOperatorView::Sort { by_kwd: _, sortings } => {
            assert forall|i: int| 0 <= i < sortings.len() implies sorting_fits(
                #[trigger] sortings[i],
                more,
            ) by {
                assert(sorting_fits(sortings[i], bytes));
            }
        },
        TabularOperatorView::Summarize { result_columns, by_kwd: _, grouping_columns } => {
            assert forall|i: int| 0 <= i < result_columns.len() implies definition_fits(
                #[trigger] result_columns[i],
                more,
            ) by {
                assert(definition_fits(result_columns[i], bytes));
            }
            assert forall|i: int| 0 <= i < grouping_columns.len() implies definition_fits(
                #[trigger] grouping_columns[i],
                more,
            ) by {
                assert(definition_fits(grouping_columns[i], bytes));
            }
        },
        _ => {},
    }
}

/// A term that is read is a token of the tape.
proof fn lemma_term_within(tape: Tape, index: usize)
    requires
        in_order(tape),
        tape.len() <= usize::MAX,
    ensures
        term(tape, index).result matches Ok(name) ==> name.span.end() <= reach(tape) && index
            < term(tape, index).index <= tape.len(),
        dollar_term(tape, index).result matches Ok(name) ==> name.span.end() <= reach(tape)
            && index < dollar_term(tape, index).index <= tape.len(),
{
    if index < tape.len() {
        lemma_token_within_reach(tape, index as int);
    }
}

/// A column definition that is read ends within the tape.
proof fn lemma_column_definition_fits(tape: Tape, index: usize)
    requires
        in_order(tape),
        tape.len() <= usize::MAX,
    ensures
        column_definition(tape, index).result matches Ok(column) ==> definition_fits(
            column,
            reach(tape),
        ) && index < column_definition(tape, index).index <= tape.len(),
{
    lemma_term_within(tape, index);
    let name = term(tape, index);
    if name.result is Ok && stands_at(tape, name.index, TokenView::Assign) {
        let value = expression(tape, advanced(name.index), 0);
        lemma_expression_covers(tape, advanced(name.index), 0);
        lemma_expression_nested(tape, advanced(name.index), 0);
        if value.result is Ok {
            lemma_token_within_reach(tape, value.index - 1);
        }
    }
}

/// The column definitions that are read after others end within the tape.
proof fn lemma_more_definitions_fit(
    tape: Tape,
    index: usize,
    columns: Seq<ColumnDefinitionView>,
)
    requires
        in_order(tape),
        index <= tape.len() <= usize::MAX,
        definitions_fit(columns, reach(tape)),
    ensures
        more_definitions(tape, index, columns).result matches Ok(list) ==> definitions_fit(
            list,
            reach(tape),
        ) && index <= more_definitions(tape, index, columns).index <= tape.len(),
    decreases remaining(tape, index),
{
    if stands_at(tape, index, TokenView::Comma) {
        let next = column_definition(tape, (index + 1) as usize);
        lemma_column_definition_fits(tape, (index + 1) as usize);
        if next.result is Ok {
            let longer = columns.push(next.result->Ok_0);
            assert forall|i: int| 0 <= i < longer.len() implies definition_fits(
                #[trigger] longer[i],
                reach(tape),
            ) by {
                if i < columns.len() {
                    assert(longer[i] == columns[i]);
                }
            }
            lemma_more_definitions_fit(tape, next.index, longer);
        }
    }
}

/// The column definitions of a list that is read end within the tape.
proof fn lemma_definitions_fit(tape: Tape, index: usize)
    requires
        in_order(tape),
        tape.len() <= usize::MAX,
    ensures
        definitions(tape, index).result matches Ok(list) ==> definitions_fit(list, reach(tape))
            && index < definitions(tape, index).index <= tape.len(),
{
    let first = column_definition(tape, index);
    lemma_column_definition_fits(tape, index);
    if first.result is Ok {
        lemma_more_definitions_fit(tape, first.index, seq![first.result->Ok_0]);
    }
}

/// The names that are read after others end within the tape.
proof fn lemma_more_names_within(tape: Tape, index: usize, names: Seq<M<Seq<char>>>)
    requires
        in_order(tape),
        tape.len() <= usize::MAX,
        forall|i: int| 0 <= i < names.len() ==> (#[trigger] names[i]).span.end() <= reach(tape),
    ensures
        more_names(tape, index, names).result matches Ok(list) ==> forall|i: int|
            0 <= i < list.len() ==> (#[trigger] list[i]).span.end() <= reach(tape),
    decreases remaining(tape, index),
{
    if stands_at(tape, index, TokenView::Comma) {
        let next = term(tape, (index + 1) as usize);
        lemma_term_within(tape, (index + 1) as usize);
        if next.result is Ok {
            let longer = names.push(next.result->Ok_0);
            assert forall|i: int| 0 <= i < longer.len() implies (#[trigger] longer[i]).span.end()
                <= reach(tape) by {
                if i < names.len() {
                    assert(longer[i] == names[i]);
                }
            }
            lemma_more_names_within(tape, next.index, longer);
        }
    }
}

/// A sorting that is read ends within the tape.
proof fn lemma_sorting_fits(tape: Tape, index: usize)
    requires
        in_order(tape),
        tape.len() <= usize::MAX,
    ensures
        sorting(tape, index).result matches Ok(value) ==> sorting_fits(value, reach(tape))
            && index < sorting(tape, index).index <= tape.len(),
{
    lemma_term_within(tape, index);
    let name = term(tape, index);
    if name.result is Ok {
        lemma_term_within(tape, name.index);
        let (order, after_order) = sort_order(tape, name.index);
        lemma_term_within(tape, after_order);
        let keyword = term(tape, after_order);
        if keyword.result is Ok {
            lemma_term_within(tape, keyword.index);
        }
    }
}

/// The sortings that are read after others end within the tape.
proof fn lemma_more_sortings_fit(tape: Tape, index: usize, sortings: Seq<SortingView>)
    requires
        in_order(tape),
        tape.len() <= usize::MAX,
        forall|i: int| 0 <= i < sortings.len() ==> sorting_fits(#[trigger] sortings[i], reach(tape)),
    ensures
        more_sortings(tape, index, sortings).result matches Ok(list) ==> forall|i: int|
            0 <= i < list.len() ==> sorting_fits(#[trigger] list[i], reach(tape)),
    decreases remaining(tape, index),
{
    if stands_at(tape, index, TokenView::Comma) {
        let next = sorting(tape, (index + 1) as usize);
        lemma_sorting_fits(tape, (index + 1) as usize);
        if next.result is Ok {
            let longer = sortings.push(next.result->Ok_0);
            assert forall|i: int| 0 <= i < longer.len() implies sorting_fits(
                #[trigger] longer[i],
                reach(tape),
            ) by {
                if i < sortings.len() {
                    assert(longer[i] == sortings[i]);
                }
            }
            lemma_more_sortings_fit(tape, next.index, longer);
        }
    }
}

/// A join attribute that is read ends within the tape.
proof fn lemma_join_attribute_fits(tape: Tape, index: usize)
    requires
        in_order(tape),
        tape.len() <= usize::MAX,
    ensures
        join_attribute(tape, index).result matches Ok(value) ==> attribute_fits(
            value,
            reach(tape),
        ) && index < join_attribute(tape, index).index <= tape.len(),
{
    if index < tape.len() {
        lemma_token_within_reach(tape, index as int);
        lemma_term_within(tape, index);
        let left = side_column(tape, index, "left"@, "'left' keyword expected"@);
        let keyword = dollar_term(tape, index);
        if keyword.result is Ok {
            let dot = symbol(tape, keyword.index, TokenView::Dot, "Dot expected"@);
            lemma_term_within(tape, dot.index);
        }
        if left.result is Ok {
            let equals = symbol(tape, left.index, TokenView::EQ, "'==' expected"@);
            if equals.result is Ok {
                lemma_term_within(tape, equals.index);
                let right_keyword = dollar_term(tape, equals.index);
                if right_keyword.result is Ok {
                    let right_dot = symbol(
                        tape,
                        right_keyword.index,
                        TokenView::Dot,
                        "Dot expected"@,
                    );
                    lemma_term_within(tape, right_dot.index);
                }
            }
        }
    }
}

/// The join attributes that are read after others end within the tape.
proof fn lemma_more_attributes_fit(
    tape: Tape,
    index: usize,
    attributes: Seq<JoinAttributeView>,
)
    requires
        in_order(tape),
        tape.len() <= usize::MAX,
        forall|i: int|
            0 <= i < attributes.len() ==> attribute_fits(#[trigger] attributes[i], reach(tape)),
    ensures
        more_attributes(tape, index, attributes).result matches Ok(list) ==> forall|i: int|
            0 <= i < list.len() ==> attribute_fits(#[trigger] list[i], reach(tape)),
    decreases remaining(tape, index),
{
    if stands_at(tape, index, TokenView::Comma) {
        let next = join_attribute(tape, (index + 1) as usize);
        lemma_join_attribute_fits(tape, (index + 1) as usize);
        if next.result is Ok {
            let longer = attributes.push(next.result->Ok_0);
            assert forall|i: int| 0 <= i < longer.len() implies attribute_fits(
                #[trigger] longer[i],
                reach(tape),
            ) by {
                if i < attributes.len() {
                    assert(longer[i] == attributes[i]);
                }
            }
            lemma_more_attributes_fit(tape, next.index, longer);
        }
    }
}

/// The name that more words are joined to begins where its first word
/// begins and ends within the tokens read.
proof fn lemma_more_kebab_within(tape: Tape, index: usize, name: M<Seq<char>>)
    requires
        in_order(tape),
        1 <= index <= tape.len() <= usize::MAX,
        name.span.offset < name.span.end() <= tape[index - 1].span.end(),
    ensures
        ({
            let read = more_kebab(tape, index, name);
            &&& read.result matches Ok(whole) && whole.span.offset == name.span.offset
                && whole.span.offset < whole.span.end() <= tape[read.index - 1].span.end()
                && whole.span.end() <= reach(tape)
            &&& index <= read.index <= tape.len()
        }),
    decreases remaining(tape, index),
{
    lemma_token_within_reach(tape, index - 1);
    if stands_at(tape, index, TokenView::Sub) {
        let next = term(tape, (index + 1) as usize);
        lemma_term_within(tape, (index + 1) as usize);
        if next.result is Ok {
            let word = next.result->Ok_0;
            if precedes(name.span, tape[index as int].span) && precedes(
                tape[index as int].span,
                word.span,
            ) {
                assert(word.span == tape[index + 1].span);
                lemma_more_kebab_within(
                    tape,
                    (index + 2) as usize,
                    M {
                        span: joined(name.span, word.span),
                        value: name.value + seq!['-'] + word.value,
                    },
                );
            }
        }
    }
}

/// A query that is read from tokens in order ends within the tape: none of
/// its ranges reaches past the end of the last token. Its table and the
/// names of its operators stand one after the other, and the ranges of its
/// expressions fit together.
pub proof fn lemma_query_fits(tape: Tape, index: usize)
    requires
        in_order(tape),
        tape.len() <= usize::MAX,
    ensures
        query(tape, index).result matches Ok(value) ==> query_fits(value, reach(tape)) && index
            < query(tape, index).index <= tape.len(),
    decreases remaining(tape, index), 5nat,
{
    lemma_term_within(tape, index);
    let name = term(tape, index);
    if name.result is Ok {
        lemma_operators_fit(tape, name.index, name.result->Ok_0, Seq::empty());
    }
}

/// The operators that are read after others end within the tape, and their
/// names stand after the table and after the names of the others.
pub proof fn lemma_operators_fit(
    tape: Tape,
    index: usize,
    table: M<Seq<char>>,
    list: Seq<(M<Seq<char>>, TabularOperatorView)>,
)
    requires
        in_order(tape),
        1 <= index <= tape.len() <= usize::MAX,
        table.span.end() <= tape[index - 1].span.end(),
        names_in_order(table, list),
        forall|i: int|
            0 <= i < list.len() ==> (#[trigger] list[i]).0.span.end() <= tape[index
                - 1].span.end() && operator_fits(list[i].1, reach(tape)),
    ensures
        ({
            let read = operators(tape, index, list);
            &&& read.result matches Ok(all) ==> names_in_order(table, all) && (forall|i: int|
                0 <= i < all.len() ==> (#[trigger] all[i]).0.span.end() <= reach(tape)
                    && operator_fits(all[i].1, reach(tape)))
            &&& read.result is Ok ==> index <= read.index <= tape.len()
        }),
    decreases remaining(tape, index), 4nat,
{
    lemma_token_within_reach(tape, index - 1);
    if stands_at(tape, index, TokenView::Pipe) {
        let next = operator(tape, (index + 1) as usize);
        lemma_operator_fits(tape, (index + 1) as usize);
        if next.result is Ok {
            let added = next.result->Ok_0;
            let longer = list.push(added);
            assert(tape[index - 1].span.end() <= tape[index as int].span.offset);
            assert(tape[index as int].span.end() <= tape[index + 1].span.offset);
            assert(tape[index as int].span.len > 0);
            if index + 1 < next.index - 1 {
                assert(tape[index + 1].span.end() <= tape[next.index - 1].span.offset);
            }
            assert forall|i: int| 0 <= i < longer.len() implies (#[trigger] longer[i]).0.span.end()
                <= tape[next.index - 1].span.end() && operator_fits(longer[i].1, reach(tape)) by {
                if i < list.len() {
                    assert(longer[i] == list[i]);
                    assert(tape[index - 1].span.end() <= tape[next.index - 1].span.offset);
                }
            }
            assert(names_in_order(table, longer)) by {
                assert forall|i: int| 0 <= i < longer.len() implies table.span.end() <= (
                #[trigger] longer[i]).0.span.offset && table.span.offset
                    < longer[i].0.span.offset by {
                    if i < list.len() {
                        assert(longer[i] == list[i]);
                    }
                }
                assert forall|i: int, j: int| 0 <= i < j < longer.len() implies (
                #[trigger] longer[i]).0.span.end() <= (#[trigger] longer[j]).0.span.offset
                    && longer[i].0.span.offset < longer[j].0.span.offset by {
                    assert(longer[i] == list[i]);
                    if j < list.len() {
                        assert(longer[j] == list[j]);
                    }
                }
            }
            assert(table.span.end() <= tape[next.index - 1].span.end()) by {
                assert(tape[index - 1].span.end() <= tape[next.index - 1].span.offset);
            }
            lemma_operators_fit(tape, next.index, table, longer);
        }
    } else {
        let all = list;
        assert forall|i: int| 0 <= i < all.len() implies (#[trigger] all[i]).0.span.end() <= reach(
            tape,
        ) by {}
    }
}

/// An operator that is read ends within the tape.
pub proof fn lemma_operator_fits(tape: Tape, index: usize)
    requires
        in_order(tape),
        tape.len() <= usize::MAX,
    ensures
        operator(tape, index).result matches Ok(value) ==> {
            &&& value.0.span.end() <= reach(tape)
            &&& operator_fits(value.1, reach(tape))
            &&& index < operator(tape, index).index <= tape.len()
            &&& value.0.span.offset == tape[index as int].span.offset
            &&& value.0.span.offset < value.0.span.end() <= tape[operator(tape, index).index
                - 1].span.end()
        },
    decreases remaining(tape, index), 3nat,
{
    lemma_term_within(tape, index);
    let first = term(tape, index);
    if first.result is Ok {
        lemma_more_kebab_within(tape, first.index, first.result->Ok_0);
        let name = kebab_term(tape, index);
        let word = name.result->Ok_0.value;
        let after = name.index;
        if word == "distinct"@ {
            lemma_term_within(tape, after);
            if after < tape.len() {
                lemma_token_within_reach(tape, after as int);
            }
            let first_name = term(tape, after);
            if !stands_at(tape, after, TokenView::Star) && first_name.result is Ok {
                lemma_more_names_within(tape, first_name.index, seq![first_name.result->Ok_0]);
                lemma_more_names_move_on(tape, first_name.index, seq![first_name.result->Ok_0]);
            }
        } else if word == "join"@ {
            lemma_join_fits(tape, after);
        } else if word == "limit"@ || word == "take"@ {
            if after < tape.len() {
                lemma_token_within_reach(tape, after as int);
            }
        } else if word == "project"@ {
            lemma_definitions_fit(tape, after);
        } else if word == "sort"@ || word == "order"@ {
            lemma_term_within(tape, after);
            let by = by_keyword(tape, after);
            if by.result is Ok {
                lemma_sorting_fits(tape, by.index);
                let first_sorting = sorting(tape, by.index);
                if first_sorting.result is Ok {
                    lemma_more_sortings_fit(
                        tape,
                        first_sorting.index,
                        seq![first_sorting.result->Ok_0],
                    );
                    lemma_more_sortings_move_on(
                        tape,
                        first_sorting.index,
                        seq![first_sorting.result->Ok_0],
                    );
                }
            }
        } else if word == "summarize"@ {
            lemma_definitions_fit(tape, after);
            let results = definitions(tape, after);
            if results.result is Ok {
                lemma_term_within(tape, results.index);
                let by = by_keyword(tape, results.index);
                if by.result is Ok {
                    lemma_definitions_fit(tape, by.index);
                }
            }
        } else if word == "where"@ {
            lemma_expression_covers(tape, after, 0);
            lemma_expression_nested(tape, after, 0);
            let condition = expression(tape, after, 0);
            if condition.result is Ok {
                lemma_token_within_reach(tape, condition.index - 1);
            }
        }
    }
}

/// The names that are read after others end on the tape.
proof fn lemma_more_names_move_on(tape: Tape, index: usize, names: Seq<M<Seq<char>>>)
    requires
        index <= tape.len() <= usize::MAX,
    ensures
        more_names(tape, index, names).result is Ok ==> index <= more_names(
            tape,
            index,
            names,
        ).index <= tape.len(),
    decreases remaining(tape, index),
{
    if stands_at(tape, index, TokenView::Comma) {
        let next = term(tape, (index + 1) as usize);
        if next.result is Ok {
            lemma_more_names_move_on(tape, next.index, names.push(next.result->Ok_0));
        }
    }
}

/// The sortings that are read after others end on the tape.
proof fn lemma_more_sortings_move_on(tape: Tape, index: usize, sortings: Seq<SortingView>)
    requires
        in_order(tape),
        index <= tape.len() <= usize::MAX,
    ensures
        more_sortings(tape, index, sortings).result is Ok ==> index <= more_sortings(
            tape,
            index,
            sortings,
        ).index <= tape.len(),
    decreases remaining(tape, index),
{
    if stands_at(tape, index, TokenView::Comma) {
        let next = sorting(tape, (index + 1) as usize);
        lemma_sorting_fits(tape, (index + 1) as usize);
        if next.result is Ok {
            lemma_more_sortings_move_on(tape, next.index, sortings.push(next.result->Ok_0));
        }
    }
}

/// The join attributes that are read after others end on the tape.
proof fn lemma_more_attributes_move_on(
    tape: Tape,
    index: usize,
    attributes: Seq<JoinAttributeView>,
)
    requires
        in_order(tape),
        index <= tape.len() <= usize::MAX,
    ensures
        more_attributes(tape, index, attributes).result is Ok ==> index <= more_attributes(
            tape,
            index,
            attributes,
        ).index <= tape.len(),
    decreases remaining(tape, index),
{
    if stands_at(tape, index, TokenView::Comma) {
        let next = join_attribute(tape, (index + 1) as usize);
        lemma_join_attribute_fits(tape, (index + 1) as usize);
        if next.result is Ok {
            lemma_more_attributes_move_on(tape, next.index, attributes.push(next.result->Ok_0));
        }
    }
}

/// The rest of a join that is read ends within the tape.
pub proof fn lemma_join_fits(tape: Tape, index: usize)
    requires
        in_order(tape),
        tape.len() <= usize::MAX,
    ensures
        join(tape, index).result matches Ok(value) ==> operator_fits(value, reach(tape))
            && index <= join(tape, index).index <= tape.len(),
    decreases remaining(tape, index), 2nat,
{
    lemma_term_within(tape, index);
    let kind = join_params(tape, index);
    if kind.result is Ok {
        let open = symbol(
            tape,
            kind.index,
            TokenView::LParen,
            "Expected left paranthesis before table name"@,
        );
        if open.result is Ok && index < open.index <= tape.len() {
            lemma_query_fits(tape, open.index);
            let table = query(tape, open.index);
            if table.result is Ok {
                let close = symbol(
                    tape,
                    table.index,
                    TokenView::RParen,
                    "Expected right paranthesis after table name"@,
                );
                if close.result is Ok {
                    lemma_join_attribute_fits(tape, close.index);
                    let first = join_attribute(tape, close.index);
                    if first.result is Ok {
                        lemma_more_attributes_fit(
                            tape,
                            first.index,
                            seq![first.result->Ok_0],
                        );
                        lemma_more_attributes_move_on(
                            tape,
                            first.index,
                            seq![first.result->Ok_0],
                        );
                    }
                }
            }
        }
    }
}

/// Whether a parsing function read what the grammar says, and moved on
/// where it read something.
pub open spec fn advances<T: DeepView>(
    before: ParseInput,
    after: ParseInput,
    result: Result<T, ParserError>,
    expected: Parsed<T::V>,
) -> bool {
    &&& agrees(before, after, result, expected)
    &&& result is Ok ==> before.position() < after.position() <= before.tape().len()
}

/// Whether a parsing function read what the grammar says, and did not move
/// back or off the tape where it read something.
pub open spec fn holds<T: DeepView>(
    before: ParseInput,
    after: ParseInput,
    result: Result<T, ParserError>,
    expected: Parsed<T::V>,
) -> bool {
    &&& agrees(before, after, result, expected)
    &&& result is Ok ==> before.position() <= after.position() <= before.tape().len()
}

/// Whether a word is `word`.
fn is_word(name: &String, word: &str) -> (equal: bool)
    ensures
        equal == (name@ == word@),
{
    *name == String::from_str(word)
}

fn parse_column_definition(input: &mut ParseInput) -> (result: Result<
    ColumnDefinition,
    ParserError,
>)
    requires
        in_order(old(input).tape()),
    ensures
        advances(
            *old(input),
            *final(input),
            result,
            column_definition(old(input).tape(), old(input).position()),
        ),
{
    proof {
        input.lemma_tape_fits();
    }
    let column = parse_term(input)?;
    let expr = if input.next_if(Token::Assign).is_some() {
        Some(parse_expression(input)?)
    } else {
        None
    };
    Ok(ColumnDefinition { column, expr })
}

/// Reads one column definition or more, separated by commas.
fn parse_definitions(input: &mut ParseInput) -> (result: Result<
    Vec<ColumnDefinition>,
    ParserError,
>)
    requires
        in_order(old(input).tape()),
    ensures
        advances(
            *old(input),
            *final(input),
            result,
            definitions(old(input).tape(), old(input).position()),
        ),
{
    let ghost tape = input.tape();
    let ghost start = input.position();
    proof {
        input.lemma_tape_fits();
    }
    let mut columns: Vec<ColumnDefinition> = Vec::new();
    let first = parse_column_definition(input)?;
    let ghost first_view = first.deep_view();
    columns.push(first);
    assert(columns.deep_view() =~= seq![first_view]);
    loop
        invariant_except_break
            input.tape() == tape,
            tape == old(input).tape(),
            start == old(input).position(),
            in_order(tape),
            tape.len() <= usize::MAX,
            start < input.position() <= tape.len(),
            definitions(tape, start) == more_definitions(
                tape,
                input.position(),
                columns.deep_view(),
            ),
        ensures
            input.tape() == tape,
            start < input.position() <= tape.len(),
            definitions(tape, start) == (Parsed {
                index: input.position(),
                result: Ok::<Seq<ColumnDefinitionView>, ParserErrorView>(columns.deep_view()),
            }),
        decreases remaining(tape, input.position()),
    {
        if input.next_if(Token::Comma).is_none() {
            break ;
        }
        let ghost before = columns.deep_view();
        let next = parse_column_definition(input)?;
        let ghost next_view = next.deep_view();
        columns.push(next);
        assert(columns.deep_view() =~= before.push(next_view));
    }
    Ok(columns)
}

fn parse_distinct(input: &mut ParseInput) -> (result: Result<TabularOperator, ParserError>)
    ensures
        holds(*old(input), *final(input), result, distinct(old(input).tape(), old(input).position())),
{
    Ok(TabularOperator::Distinct { columns: parse_columns(input)? })
}

fn parse_columns(input: &mut ParseInput) -> (result: Result<Columns, ParserError>)
    ensures
        holds(*old(input), *final(input), result, columns(old(input).tape(), old(input).position())),
{
    let ghost tape = input.tape();
    let ghost start = input.position();
    proof {
        input.lemma_tape_fits();
    }
    let star_span = input.next_if(Token::Star);
    if let Some(span) = star_span {
        return Ok(Columns::Wildcard(span));
    }
    let first_name = parse_term(input)?;
    let ghost first_view = first_name.deep_view();
    let mut names: Vec<M<String>> = Vec::new();
    names.push(first_name);
    assert(names.deep_view() =~= seq![first_view]);
    loop
        invariant_except_break
            input.tape() == tape,
            tape == old(input).tape(),
            start == old(input).position(),
            tape.len() <= usize::MAX,
            !stands_at(tape, start, TokenView::Star),
            start < input.position() <= tape.len(),
            term(tape, start).result is Ok,
            more_names(tape, term(tape, start).index, seq![term(tape, start).result->Ok_0])
                == more_names(tape, input.position(), names.deep_view()),
        ensures
            input.tape() == tape,
            start < input.position() <= tape.len(),
            more_names(tape, term(tape, start).index, seq![term(tape, start).result->Ok_0])
                == (Parsed {
                index: input.position(),
                result: Ok::<Seq<M<Seq<char>>>, ParserErrorView>(names.deep_view()),
            }),
        decreases remaining(tape, input.position()),
    {
        if input.next_if(Token::Comma).is_none() {
            break ;
        }
        let ghost before = names.deep_view();
        let next = parse_term(input)?;
        let ghost next_view = next.deep_view();
        names.push(next);
        assert(names.deep_view() =~= before.push(next_view));
    }
    Ok(Columns::Explicit(names))
}

fn parse_extend(input: &mut ParseInput) -> (result: Result<TabularOperator, ParserError>)
    ensures
        agrees(
            *old(input),
            *final(input),
            result,
            not_yet_supported(old(input).tape(), old(input).position(), "extend operator"@),
        ),
{
    Err(input.unsupported_error("extend operator"))
}

fn parse_top(input: &mut ParseInput) -> (result: Result<TabularOperator, ParserError>)
    ensures
        agrees(
            *old(input),
            *final(input),
            result,
            not_yet_supported(old(input).tape(), old(input).position(), "top operator"@),
        ),
{
    Err(input.unsupported_error("top operator"))
}

fn parse_limit(input: &mut ParseInput) -> (result: Result<TabularOperator, ParserError>)
    ensures
        holds(*old(input), *final(input), result, limit(old(input).tape(), old(input).position())),
{
    let token = input.next()?;
    let span = token.span;
    let amount = match &token.value {
        Token::IntLiteral(value) => *value as i64,
        Token::LongLiteral(value) => *value,
        _ => {
            return Err(input.unexpected_token("Expected number literal for limit argument"));
        },
    };
    Ok(TabularOperator::Limit { limit: M::new(amount, span) })
}

/// Reads the columns of a `project`. A `project` that nothing follows has
/// no columns.
pub fn parse_project(input: &mut ParseInput) -> (result: Result<TabularOperator, ParserError>)
    requires
        in_order(old(input).tape()),
    ensures
        agrees(*old(input), *final(input), result, project(old(input).tape(), old(input).position())),
        result is Ok ==> old(input).position() <= final(input).position(),
        result is Ok && old(input).position() <= old(input).tape().len()
            ==> final(input).position() <= old(input).tape().len(),
{
    let columns: Vec<ColumnDefinition> = Vec::new();
    let nothing_follows = match input.peek() {
        Ok(next) => next.value.same(&Token::Pipe) || next.value.same(&Token::RParen),
        Err(_) => true,
    };
    if nothing_follows {
        assert(columns.deep_view() =~= Seq::empty());
        return Ok(TabularOperator::Project { columns });
    }
    let columns = parse_definitions(input)?;
    Ok(TabularOperator::Project { columns })
}

/// Reads `asc` or `desc`, if one of them stands there.
fn parse_sort_order(input: &mut ParseInput) -> (order: Option<M<SortOrder>>)
    ensures
        final(input).tape() == old(input).tape(),
        (order, final(input).position()) == sort_order(old(input).tape(), old(input).position()),
        old(input).position() <= final(input).position(),
{
    let checkpoint = input.checkpoint();
    let order = match parse_term(input) {
        Ok(order_term) => {
            if is_word(&order_term.value, "asc") {
                Some(M::new(SortOrder::Ascending, order_term.span))
            } else if is_word(&order_term.value, "desc") {
                Some(M::new(SortOrder::Descending, order_term.span))
            } else {
                None
            }
        },
        Err(_) => None,
    };
    if order.is_none() {
        input.restore(checkpoint);
    }
    order
}

/// Reads `nulls first` or `nulls last`, if `nulls` stands there.
fn parse_nulls_position(input: &mut ParseInput) -> (result: Result<
    Option<(Span, M<NullsPosition>)>,
    ParserError,
>)
    ensures
        agrees(
            *old(input),
            *final(input),
            result,
            nulls_position(old(input).tape(), old(input).position()),
        ),
        result is Ok ==> old(input).position() <= final(input).position(),
{
    let checkpoint = input.checkpoint();
    match parse_term(input) {
        Ok(nulls_kwd) => {
            if is_word(&nulls_kwd.value, "nulls") {
                let nulls_pos = parse_term(input)?;
                if is_word(&nulls_pos.value, "first") {
                    return Ok(Some((nulls_kwd.span, M::new(NullsPosition::First, nulls_pos.span))));
                } else if is_word(&nulls_pos.value, "last") {
                    return Ok(Some((nulls_kwd.span, M::new(NullsPosition::Last, nulls_pos.span))));
                } else {
                    return Err(input.unexpected_token("Expected nulls position"));
                }
            }
        },
        Err(_) => {},
    }
    input.restore(checkpoint);
    Ok(None)
}

fn parse_sorting(input: &mut ParseInput) -> (result: Result<Sorting, ParserError>)
    ensures
        advances(*old(input), *final(input), result, sorting(old(input).tape(), old(input).position())),
{
    proof {
        input.lemma_tape_fits();
    }
    let column = match parse_term(input) {
        Ok(column) => column,
        Err(_) => {
            return Err(input.unexpected_token("Expected column name"));
        },
    };
    let order = parse_sort_order(input);
    let nulls = parse_nulls_position(input)?;
    proof {
        input.lemma_tape_fits();
        lemma_sorting_ends_on_tape(input.tape(), old(input).position());
    }
    Ok(Sorting { column, order, nulls })
}

/// A sorting that was read ends on the tape.
proof fn lemma_sorting_ends_on_tape(tape: Tape, index: usize)
    requires
        tape.len() <= usize::MAX,
        sorting(tape, index).result is Ok,
    ensures
        index < sorting(tape, index).index <= tape.len(),
{
}

fn parse_by(input: &mut ParseInput) -> (result: Result<Span, ParserError>)
    ensures
        advances(
            *old(input),
            *final(input),
            result,
            by_keyword(old(input).tape(), old(input).position()),
        ),
{
    proof {
        input.lemma_tape_fits();
    }
    let first_term = parse_term(input)?;
    if is_word(&first_term.value, "by") {
        Ok(first_term.span)
    } else {
        Err(input.unexpected_token("Expected 'by' keyword"))
    }
}

/// Reads one sorting or more, separated by commas.
fn parse_sortings(input: &mut ParseInput) -> (result: Result<Vec<Sorting>, ParserError>)
    ensures
        advances(*old(input), *final(input), result, sortings(old(input).tape(), old(input).position())),
{
    let ghost tape = input.tape();
    let ghost start = input.position();
    proof {
        input.lemma_tape_fits();
    }
    let mut list: Vec<Sorting> = Vec::new();
    let first = parse_sorting(input)?;
    let ghost first_view = first.deep_view();
    list.push(first);
    assert(list.deep_view() =~= seq![first_view]);
    loop
        invariant_except_break
            input.tape() == tape,
            tape == old(input).tape(),
            start == old(input).position(),
            tape.len() <= usize::MAX,
            start < input.position() <= tape.len(),
            sortings(tape, start) == more_sortings(tape, input.position(), list.deep_view()),
        ensures
            input.tape() == tape,
            start < input.position() <= tape.len(),
            sortings(tape, start) == (Parsed {
                index: input.position(),
                result: Ok::<Seq<SortingView>, ParserErrorView>(list.deep_view()),
            }),
        decreases remaining(tape, input.position()),
    {
        if input.next_if(Token::Comma).is_none() {
            break ;
        }
        let ghost before = list.deep_view();
        let next = parse_sorting(input)?;
        let ghost next_view = next.deep_view();
        list.push(next);
        assert(list.deep_view() =~= before.push(next_view));
    }
    Ok(list)
}

fn parse_sort(input: &mut ParseInput) -> (result: Result<TabularOperator, ParserError>)
    ensures
        holds(*old(input), *final(input), result, sort(old(input).tape(), old(input).position())),
{
    let by_kwd = parse_by(input)?;
    let sortings = parse_sortings(input)?;
    Ok(TabularOperator::Sort { by_kwd, sortings })
}

pub fn parse_summarize(input: &mut ParseInput) -> (result: Result<TabularOperator, ParserError>)
    requires
        in_order(old(input).tape()),
    ensures
        holds(
            *old(input),
            *final(input),
            result,
            summarize(old(input).tape(), old(input).position()),
        ),
{
    let result_columns = parse_definitions(input)?;
    let by_kwd = parse_by(input)?;
    let grouping_columns = parse_definitions(input)?;
    Ok(TabularOperator::Summarize { result_columns, by_kwd, grouping_columns })
}

fn parse_where(input: &mut ParseInput) -> (result: Result<TabularOperator, ParserError>)
    requires
        in_order(old(input).tape()),
    ensures
        holds(*old(input), *final(input), result, filter(old(input).tape(), old(input).position())),
{
    let expr = parse_expression(input)?;
    Ok(TabularOperator::Where { expr })
}

fn parse_join_kind(input: &mut ParseInput) -> (result: Result<JoinKind, ParserError>)
    ensures
        advances(*old(input), *final(input), result, join_kind(old(input).tape(), old(input).position())),
{
    proof {
        input.lemma_tape_fits();
    }
    let term = parse_term(input)?;
    let word = &term.value;
    if is_word(word, "innerunique") {
        Ok(JoinKind::InnerUnique)
    } else if is_word(word, "inner") {
        Ok(JoinKind::Inner)
    } else if is_word(word, "leftouter") {
        Ok(JoinKind::LeftOuter)
    } else if is_word(word, "rightouter") {
        Ok(JoinKind::RightOuter)
    } else if is_word(word, "fullouter") {
        Ok(JoinKind::FullOuter)
    } else if is_word(word, "leftanti") {
        Ok(JoinKind::LeftAnti)
    } else if is_word(word, "rightanti") {
        Ok(JoinKind::RightAnti)
    } else if is_word(word, "leftsemi") {
        Ok(JoinKind::LeftSemi)
    } else if is_word(word, "rightsemi") {
        Ok(JoinKind::RightSemi)
    } else {
        Err(input.unexpected_token("Expected join parameter or '(table_name)'"))
    }
}

/// Reads one token, which has to be `token`.
fn parse_symbol(input: &mut ParseInput, token: Token, description: &str) -> (result: Result<
    (),
    ParserError,
>)
    ensures
        advances(
            *old(input),
            *final(input),
            result,
            symbol(old(input).tape(), old(input).position(), token.deep_view(), description@),
        ),
{
    proof {
        input.lemma_tape_fits();
    }
    let found = input.next()?;
    if !found.value.same(&token) {
        return Err(input.unexpected_token(description));
    }
    Ok(())
}

/// Reads `$word . name`, where `word` is the side asked for.
fn parse_side_column(input: &mut ParseInput, side: &str, expected: &str) -> (result: Result<
    (Span, M<String>),
    ParserError,
>)
    ensures
        advances(
            *old(input),
            *final(input),
            result,
            side_column(old(input).tape(), old(input).position(), side@, expected@),
        ),
{
    proof {
        input.lemma_tape_fits();
    }
    let dollar_term = parse_dollar_term(input)?;
    if !is_word(&dollar_term.value, side) {
        return Err(input.unexpected_token(expected));
    }
    let span = dollar_term.span;
    parse_symbol(input, Token::Dot, "Dot expected")?;
    let name = parse_term(input)?;
    Ok((span, name))
}

fn parse_join_attribute(input: &mut ParseInput) -> (result: Result<JoinAttribute, ParserError>)
    ensures
        advances(
            *old(input),
            *final(input),
            result,
            join_attribute(old(input).tape(), old(input).position()),
        ),
{
    proof {
        input.lemma_tape_fits();
    }
    let checkpoint = input.checkpoint();
    let token = input.next()?;
    let span = token.span;
    match &token.value {
        Token::Term(s) => {
            let name = M::new(s.clone(), span);
            Ok(JoinAttribute::Matching { name })
        },
        Token::DollarTerm(_) => {
            input.restore(checkpoint);
            let (left_kwd, left_name) = parse_side_column(input, "left", "'left' keyword expected")?;
            parse_symbol(input, Token::EQ, "'==' expected")?;
            let (right_kwd, right_name) = parse_side_column(
                input,
                "right",
                "'right' keyword expected",
            )?;
            Ok(JoinAttribute::NonMatching { left_kwd, left_name, right_kwd, right_name })
        },
        _ => Err(input.unexpected_token("Term expected")),
    }
}

fn parse_kebab_term(input: &mut ParseInput) -> (result: Result<M<String>, ParserError>)
    requires
        in_order(old(input).tape()),
    ensures
        advances(
            *old(input),
            *final(input),
            result,
            kebab_term(old(input).tape(), old(input).position()),
        ),
{
    let ghost tape = input.tape();
    let ghost start = input.position();
    proof {
        input.lemma_tape_fits();
    }
    let first_term = parse_term(input)?;
    let mut span = first_term.span;
    let mut name = first_term.value;
    while !input.done()
        invariant_except_break
            input.tape() == tape,
            tape == old(input).tape(),
            start == old(input).position(),
            in_order(tape),
            tape.len() <= usize::MAX,
            start < input.position() <= tape.len(),
            kebab_term(tape, start) == more_kebab(
                tape,
                input.position(),
                M { span, value: name@ },
            ),
        ensures
            input.tape() == tape,
            start < input.position() <= tape.len(),
            kebab_term(tape, start) == (Parsed {
                index: input.position(),
                result: Ok::<M<Seq<char>>, ParserErrorView>(M { span, value: name@ }),
            }),
        decreases remaining(tape, input.position()),
    {
        let checkpoint = input.checkpoint();
        let hyphen = input.next_if(Token::Sub);
        if let Some(hyphen_span) = hyphen {
            if let Ok(term) = parse_term(input) {
                if span_precedes_span(span, hyphen_span) && span_precedes_span(
                    hyphen_span,
                    term.span,
                ) {
                    let ghost before = name@;
                    span = join_spans(span, term.span);
                    push_char(&mut name, '-');
                    name.append(term.value.as_str());
                    assert(name@ =~= before + seq!['-'] + term.value@);
                    continue ;
                }
            }
        }
        input.restore(checkpoint);
        break ;
    }
    Ok(M::new(name, span))
}

/// Reads the attributes of a join: one or more, separated by commas.
fn parse_join_attributes(input: &mut ParseInput) -> (result: Result<
    Vec<JoinAttribute>,
    ParserError,
>)
    ensures
        advances(
            *old(input),
            *final(input),
            result,
            attributes(old(input).tape(), old(input).position()),
        ),
{
    let ghost tape = input.tape();
    let ghost start = input.position();
    proof {
        input.lemma_tape_fits();
    }
    let mut list: Vec<JoinAttribute> = Vec::new();
    let first = parse_join_attribute(input)?;
    let ghost first_view = first.deep_view();
    list.push(first);
    assert(list.deep_view() =~= seq![first_view]);
    loop
        invariant_except_break
            input.tape() == tape,
            tape == old(input).tape(),
            start == old(input).position(),
            tape.len() <= usize::MAX,
            start < input.position() <= tape.len(),
            attributes(tape, start) == more_attributes(
                tape,
                input.position(),
                list.deep_view(),
            ),
        ensures
            input.tape() == tape,
            start < input.position() <= tape.len(),
            attributes(tape, start) == (Parsed {
                index: input.position(),
                result: Ok::<Seq<JoinAttributeView>, ParserErrorView>(list.deep_view()),
            }),
        decreases remaining(tape, input.position()),
    {
        if input.next_if(Token::Comma).is_none() {
            break ;
        }
        let ghost before = list.deep_view();
        let next = parse_join_attribute(input)?;
        let ghost next_view = next.deep_view();
        list.push(next);
        assert(list.deep_view() =~= before.push(next_view));
    }
    Ok(list)
}

/// Reads the kind of a join, if `(` does not follow at once.
fn parse_join_params(input: &mut ParseInput) -> (result: Result<Option<JoinKind>, ParserError>)
    ensures
        holds(
            *old(input),
            *final(input),
            result,
            join_params(old(input).tape(), old(input).position()),
        ),
{
    proof {
        input.lemma_tape_fits();
    }
    let checkpoint = input.checkpoint();
    if input.next_if(Token::LParen).is_some() {
        input.restore(checkpoint);
        Ok(None)
    } else {
        Ok(Some(parse_join_kind(input)?))
    }
}

/// Reads the end of a `join`, after the other query: `)` and the attributes.
fn parse_join_end(input: &mut ParseInput, kind: Option<JoinKind>, table_query: Query) -> (result:
    Result<TabularOperator, ParserError>)
    ensures
        advances(
            *old(input),
            *final(input),
            result,
            join_end(
                old(input).tape(),
                old(input).position(),
                kind,
                table_query.deep_view(),
            ),
        ),
{
    let params = JoinParams { kind };
    let right_table = Box::new(table_query);
    parse_symbol(input, Token::RParen, "Expected right paranthesis after table name")?;
    let attributes = parse_join_attributes(input)?;
    Ok(TabularOperator::Join { params, right_table, attributes })
}

#[verifier::rlimit(40)]
pub fn parse_join(input: &mut ParseInput) -> (result: Result<TabularOperator, ParserError>)
    requires
        in_order(old(input).tape()),
    ensures
        holds(*old(input), *final(input), result, join(old(input).tape(), old(input).position())),
    decreases remaining(old(input).tape(), old(input).position()), 2nat,
{
    proof {
        input.lemma_tape_fits();
    }
    let kind = parse_join_params(input)?;
    parse_symbol(input, Token::LParen, "Expected left paranthesis before table name")?;
    let table_query = parse_query(input)?;
    parse_join_end(input, kind, table_query)
}

fn parse_operator(input: &mut ParseInput) -> (result: Result<
    (M<String>, TabularOperator),
    ParserError,
>)
    requires
        in_order(old(input).tape()),
    ensures
        advances(*old(input), *final(input), result, operator(old(input).tape(), old(input).position())),
    decreases remaining(old(input).tape(), old(input).position()), 3nat,
{
    proof {
        input.lemma_tape_fits();
    }
    let operator_name = parse_kebab_term(input)?;
    let word = &operator_name.value;

    let operator = if is_word(word, "count") {
        TabularOperator::Count
    } else if is_word(word, "distinct") {
        parse_distinct(input)?
    } else if is_word(word, "extend") {
        parse_extend(input)?
    } else if is_word(word, "join") {
        parse_join(input)?
    } else if is_word(word, "limit") || is_word(word, "take") {
        parse_limit(input)?
    } else if is_word(word, "project") {
        parse_project(input)?
    } else if is_word(word, "sort") || is_word(word, "order") {
        parse_sort(input)?
    } else if is_word(word, "summarize") {
        parse_summarize(input)?
    } else if is_word(word, "top") {
        parse_top(input)?
    } else if is_word(word, "where") {
        parse_where(input)?
    } else {
        return Err(input.general_error("No tabular operator with this name"));
    };
    Ok((operator_name, operator))
}

fn parse_operators(input: &mut ParseInput) -> (result: Result<
    Vec<(M<String>, TabularOperator)>,
    ParserError,
>)
    requires
        in_order(old(input).tape()),
    ensures
        agrees(
            *old(input),
            *final(input),
            result,
            operators(old(input).tape(), old(input).position(), Seq::empty()),
        ),
        result is Ok ==> old(input).position() <= final(input).position(),
        result is Ok && old(input).position() <= old(input).tape().len()
            ==> final(input).position() <= old(input).tape().len(),
    decreases remaining(old(input).tape(), old(input).position()), 4nat,
{
    let ghost tape = input.tape();
    let ghost start = input.position();
    proof {
        input.lemma_tape_fits();
    }
    let mut list: Vec<(M<String>, TabularOperator)> = Vec::new();
    assert(list.deep_view() =~= Seq::empty());
    loop
        invariant_except_break
            input.tape() == tape,
            tape == old(input).tape(),
            start == old(input).position(),
            in_order(tape),
            tape.len() <= usize::MAX,
            start <= input.position(),
            start <= tape.len() ==> input.position() <= tape.len(),
            operators(tape, start, Seq::empty()) == operators(
                tape,
                input.position(),
                list.deep_view(),
            ),
        ensures
            input.tape() == tape,
            start <= input.position(),
            start <= tape.len() ==> input.position() <= tape.len(),
            operators(tape, start, Seq::empty()) == (Parsed {
                index: input.position(),
                result: Ok::<Seq<(M<Seq<char>>, TabularOperatorView)>, ParserErrorView>(
                    list.deep_view(),
                ),
            }),
        decreases remaining(tape, input.position()),
    {
        if input.next_if(Token::Pipe).is_none() {
            break ;
        }
        let ghost before = list.deep_view();
        let next = parse_operator(input)?;
        let ghost next_view = next.deep_view();
        list.push(next);
        assert(list.deep_view() =~= before.push(next_view));
    }
    Ok(list)
}

/// Reads a query.
pub fn parse_query(input: &mut ParseInput) -> (result: Result<Query, ParserError>)
    requires
        in_order(old(input).tape()),
    ensures
        advances(*old(input), *final(input), result, query(old(input).tape(), old(input).position())),
        result matches Ok(parsed) ==> query_fits(parsed.deep_view(), reach(old(input).tape())),
    decreases remaining(old(input).tape(), old(input).position()), 5nat,
{
    proof {
        input.lemma_tape_fits();
        lemma_query_fits(input.tape(), input.position());
    }
    let table = parse_term(input)?;
    let operators = parse_operators(input)?;
    let ghost list = operators.deep_view();
    let parsed = Query { table, operators };
    assert(parsed.deep_view().operators =~= list);
    Ok(parsed)
}

} // verus!
