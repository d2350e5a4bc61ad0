use kql_converter::ast::expression::{BinaryOp, Expression, Literal};
use kql_converter::ast::query::{
    ColumnDefinition, Columns, JoinAttribute, JoinKind, JoinParams, JoinReturnColumns,
    NullsPosition, Query, SortOrder, Sorting, TabularOperator,
};
use kql_converter::lexer::{tokenize, Token};
use kql_converter::parser::expression::{
    infix_binding_power, parse_expression, parse_leaf, parse_literal, parse_parenthetical,
};
use kql_converter::parser::query::{parse_join, parse_project, parse_query, parse_summarize};
use kql_converter::parser::{ParseInput, ParserError};
use kql_converter::spans::{join_spans, span_precedes_span, MBox, Span, M};
use kql_converter::{parse, Error};

fn make_input(source: &str) -> ParseInput {
    let tokens = tokenize(source.to_string()).unwrap();
    ParseInput::new(tokens)
}

fn name(text: &str, offset: usize) -> M<String> {
    M::new(text.to_string(), Span::new(offset, text.len()))
}

fn identifier(text: &str, offset: usize) -> MBox<Expression> {
    MBox::new(Expression::Identifier { name: name(text, offset) }, Span::new(offset, text.len()))
}

fn lit(val: Option<i64>, span: (usize, usize)) -> MBox<Expression> {
    MBox::new(Expression::Literal { value: Literal::Long(val) }, Span::new(span.0, span.1))
}

fn op(op_val: BinaryOp, span: (usize, usize)) -> M<BinaryOp> {
    M::new(op_val, Span::new(span.0, span.1))
}

fn bin(
    left: MBox<Expression>,
    op: M<BinaryOp>,
    right: MBox<Expression>,
    span: (usize, usize),
) -> MBox<Expression> {
    MBox::new(Expression::BinaryOp { left, op, right }, Span::new(span.0, span.1))
}

#[test]
fn parsing_supports_ints() {
    let cases = [
        ("int(0)", Some(0), Span::from((0, 6))),
        ("int(234)", Some(234), Span::from((0, 8))),
        ("int(null)", None, Span::from((0, 9))),
    ];
    for (source, value, span) in cases {
        let parsed_literal = M::new(Literal::Int(value), span);
        let parsed_expression = MBox::new(Expression::Literal { value: Literal::Int(value) }, span);
        assert_eq!(parse_literal(&mut make_input(source)).unwrap(), parsed_literal);
        assert_eq!(parse_leaf(&mut make_input(source)).unwrap(), parsed_expression);
        assert_eq!(parse_expression(&mut make_input(source)).unwrap(), parsed_expression);
    }
}

#[test]
fn parsing_supports_idents() {
    let cases = [
        ("foo", Span::from((0, 3))),
        ("foobar", Span::from((0, 6))),
        ("asdf", Span::from((0, 4))),
        ("asdf2", Span::from((0, 5))),
    ];
    for (source, span) in cases {
        let parsed_expression =
            MBox::new(Expression::Identifier { name: M::new(source.to_string(), span) }, span);
        assert_eq!(parse_leaf(&mut make_input(source)).unwrap(), parsed_expression);
        assert_eq!(parse_expression(&mut make_input(source)).unwrap(), parsed_expression);
    }
}

#[test]
fn parsing_supports_parenthesized_idents() {
    // parenthesized, raw, raw-span
    let cases = [
        ("(foo)", "foo", Span::from((1, 3))),
        ("(foobar)", "foobar", Span::from((1, 6))),
        ("(asdf)", "asdf", Span::from((1, 4))),
        ("(asdf2)", "asdf2", Span::from((1, 5))),
    ];
    for (source, ident, span) in cases {
        let parsed_expression =
            MBox::new(Expression::Identifier { name: M::new(ident.to_string(), span) }, span);
        assert_eq!(parse_parenthetical(&mut make_input(source)).unwrap(), parsed_expression);
        assert_eq!(parse_leaf(&mut make_input(source)).unwrap(), parsed_expression);
        assert_eq!(parse_expression(&mut make_input(source)).unwrap(), parsed_expression);
    }
}

#[test]
fn parse_expression_respects_precedence() {
    let source0 = "0 + 1 * 2";
    let expected0 = bin(
        lit(Some(0), (0, 1)),
        op(BinaryOp::Add, (2, 1)),
        bin(lit(Some(1), (4, 1)), op(BinaryOp::Mul, (6, 1)), lit(Some(2), (8, 1)), (4, 5)),
        (0, 9),
    );

    let source1 = "0 * 1 + 2";
    let expected1 = bin(
        bin(lit(Some(0), (0, 1)), op(BinaryOp::Mul, (2, 1)), lit(Some(1), (4, 1)), (0, 5)),
        op(BinaryOp::Add, (6, 1)),
        lit(Some(2), (8, 1)),
        (0, 9),
    );

    let cases = [(source0, expected0), (source1, expected1)];

    for (source, expected) in cases {
        assert_eq!(parse_expression(&mut make_input(source)).unwrap(), expected);
    }
}

#[test]
fn parse_expression_respects_associativity() {
    let source0 = "0 + 1 + 2";
    let expected0 = bin(
        bin(lit(Some(0), (0, 1)), op(BinaryOp::Add, (2, 1)), lit(Some(1), (4, 1)), (0, 5)),
        op(BinaryOp::Add, (6, 1)),
        lit(Some(2), (8, 1)),
        (0, 9),
    );

    let source1 = "0 * 1 * 2";
    let expected1 = bin(
        bin(lit(Some(0), (0, 1)), op(BinaryOp::Mul, (2, 1)), lit(Some(1), (4, 1)), (0, 5)),
        op(BinaryOp::Mul, (6, 1)),
        lit(Some(2), (8, 1)),
        (0, 9),
    );

    let cases = [(source0, expected0), (source1, expected1)];

    for (source, expected) in cases {
        assert_eq!(parse_expression(&mut make_input(source)).unwrap(), expected);
    }
}

#[test]
fn parse_summarize_supports_groupings() {
    let source = "NumTransactions=2, Total=foobar by Fruit, StartOfMonth";
    let result = parse_summarize(&mut make_input(source));
    match result {
        Ok(_) => {}
        Err(error) => {
            println!("{:?}", error);
            panic!();
        }
    }
}

#[test]
fn parse_join_supports_attributes() {
    let source = "(Table2) on CommonColumn, $left.Col1 == $right.Col2";
    let result = parse_join(&mut make_input(source));
    match result {
        Ok(_) => {}
        Err(error) => {
            println!("{:?}", error);
            panic!();
        }
    }
}

#[test]
fn parse_join_supports_kind() {
    let source = "rightouter (Table) on $left.Col1 == $right.Col2";
    let result = parse_join(&mut make_input(source));
    match result {
        Ok(_) => {}
        Err(error) => {
            println!("{:?}", error);
            panic!();
        }
    }
}

#[test]
fn or_groups_to_the_right() {
    let expected = bin(
        identifier("a", 0),
        op(BinaryOp::LogicalOr, (2, 2)),
        bin(identifier("b", 5), op(BinaryOp::LogicalOr, (7, 2)), identifier("c", 10), (5, 6)),
        (0, 11),
    );
    assert_eq!(parse_expression(&mut make_input("a or b or c")).unwrap(), expected);
}

#[test]
fn and_binds_tighter_than_or() {
    let expected = bin(
        bin(identifier("a", 0), op(BinaryOp::LogicalAnd, (2, 3)), identifier("b", 6), (0, 7)),
        op(BinaryOp::LogicalOr, (8, 2)),
        identifier("c", 11),
        (0, 12),
    );
    assert_eq!(parse_expression(&mut make_input("a and b or c")).unwrap(), expected);
}

#[test]
fn comparison_binds_tighter_than_equality() {
    let expected = bin(
        identifier("a", 0),
        op(BinaryOp::EQ, (2, 2)),
        bin(identifier("b", 5), op(BinaryOp::LT, (7, 1)), identifier("c", 9), (5, 5)),
        (0, 10),
    );
    assert_eq!(parse_expression(&mut make_input("a == b < c")).unwrap(), expected);
}

#[test]
fn binding_powers_are_those_of_the_table() {
    assert_eq!(infix_binding_power(BinaryOp::LogicalOr), (10, 1));
    assert_eq!(infix_binding_power(BinaryOp::LogicalAnd), (20, 21));
    assert_eq!(infix_binding_power(BinaryOp::EQ), (30, 31));
    assert_eq!(infix_binding_power(BinaryOp::NEQ), (30, 31));
    assert_eq!(infix_binding_power(BinaryOp::LT), (40, 41));
    assert_eq!(infix_binding_power(BinaryOp::LTE), (40, 41));
    assert_eq!(infix_binding_power(BinaryOp::GT), (40, 41));
    assert_eq!(infix_binding_power(BinaryOp::GTE), (40, 41));
    assert_eq!(infix_binding_power(BinaryOp::Add), (50, 51));
    assert_eq!(infix_binding_power(BinaryOp::Sub), (50, 51));
    assert_eq!(infix_binding_power(BinaryOp::Mul), (60, 61));
    assert_eq!(infix_binding_power(BinaryOp::Div), (60, 61));
    assert_eq!(infix_binding_power(BinaryOp::Mod), (60, 61));
}

#[test]
fn parentheses_group_first() {
    let expected = bin(
        bin(identifier("a", 1), op(BinaryOp::Add, (3, 1)), identifier("b", 5), (1, 5)),
        op(BinaryOp::Mul, (8, 1)),
        identifier("c", 10),
        (1, 10),
    );
    assert_eq!(parse_expression(&mut make_input("(a + b) * c")).unwrap(), expected);
}

#[test]
fn function_calls_take_arguments() {
    let expected = MBox::new(
        Expression::FuncCall {
            name: name("concat", 0),
            open_paren_sym: Span::new(6, 1),
            args: vec![
                identifier("First", 7),
                MBox::new(
                    Expression::Literal { value: Literal::String(String::from(" ")) },
                    Span::new(14, 3),
                ),
                identifier("Last", 19),
            ],
            close_paren_sym: Span::new(23, 1),
        },
        Span::new(0, 24),
    );
    assert_eq!(parse_expression(&mut make_input("concat(First, ' ', Last)")).unwrap(), expected);
}

#[test]
fn function_call_needs_an_argument_and_a_closing_parenthesis() {
    assert!(matches!(
        parse_expression(&mut make_input("f()")),
        Err(ParserError::UnexpectedToken { .. }) | Err(ParserError::EndOfInput)
    ));
    assert_eq!(
        parse_expression(&mut make_input("f(a b")),
        Err(ParserError::UnexpectedToken {
            span: Span::new(4, 1),
            description: String::from("No closing parenthesis for function call"),
            token: Token::Term(String::from("b")),
        })
    );
    assert_eq!(parse_expression(&mut make_input("f(a")), Err(ParserError::EndOfInput));
}

#[test]
fn expression_stops_before_what_is_no_operator() {
    let mut input = make_input("a + b | take 1");
    let parsed = parse_expression(&mut input).unwrap();
    assert_eq!(parsed.span, Span::new(0, 5));
    assert_eq!(input.next_if(Token::Pipe), Some(Span::new(6, 1)));
}

#[test]
fn every_part_lies_inside_its_parent() {
    fn check(expr: &MBox<Expression>) {
        let inside = |inner: Span| {
            expr.span.offset <= inner.offset
                && inner.offset + inner.len <= expr.span.offset + expr.span.len
        };
        match &*expr.value {
            Expression::Identifier { name } => assert!(inside(name.span)),
            Expression::FuncCall { name, open_paren_sym, args, close_paren_sym } => {
                assert!(inside(name.span));
                assert!(inside(*open_paren_sym));
                assert!(inside(*close_paren_sym));
                assert_eq!(expr.span, join_spans(name.span, *close_paren_sym));
                assert!(name.span.offset + name.span.len <= open_paren_sym.offset);
                let mut end = open_paren_sym.offset + open_paren_sym.len;
                for arg in args {
                    assert!(inside(arg.span));
                    assert!(end <= arg.span.offset);
                    end = arg.span.offset + arg.span.len;
                    check(arg);
                }
                assert!(end <= close_paren_sym.offset);
            }
            Expression::BinaryOp { left, op, right } => {
                assert!(inside(left.span));
                assert!(inside(op.span));
                assert!(inside(right.span));
                assert_eq!(expr.span, join_spans(left.span, right.span));
                assert!(left.span.offset + left.span.len <= op.span.offset);
                assert!(op.span.offset + op.span.len <= right.span.offset);
                check(left);
                check(right);
            }
            Expression::Literal { .. } => {}
        }
    }
    let source = "f(a + 1, (b)) * (c - g(d, e or h)) >= 3 and x != 'y'";
    let parsed = parse_expression(&mut make_input(source)).unwrap();
    assert_eq!(parsed.span, Span::new(0, source.len()));
    check(&parsed);
}

#[test]
fn query_without_operators() {
    assert_eq!(
        parse(String::from("Users")).unwrap(),
        Query { table: name("Users", 0), operators: vec![] }
    );
}

#[test]
fn pipe_without_operator_is_an_error() {
    assert!(matches!(
        parse(String::from("Users |")),
        Err(Error::Parser { error: ParserError::EndOfInput })
    ));
    assert!(matches!(
        parse(String::from("Users | | take 1")),
        Err(Error::Parser { error: ParserError::UnexpectedToken { .. } })
    ));
    assert!(matches!(
        parse(String::from("Users | 5")),
        Err(Error::Parser { error: ParserError::UnexpectedToken { .. } })
    ));
}

#[test]
fn unknown_operator_is_an_error() {
    match parse(String::from("Users | frobnicate x")) {
        Err(Error::Parser { error }) => assert_eq!(
            error,
            ParserError::General {
                span: Span::new(8, 10),
                message: String::from("No tabular operator with this name"),
            }
        ),
        other => panic!("{:?}", other),
    }
}

#[test]
fn operators_that_are_not_supported_yet() {
    match parse(String::from("T | extend a = 1")) {
        Err(Error::Parser { error }) => assert_eq!(
            error,
            ParserError::NotYetSupported {
                span: Span::new(4, 6),
                feature: String::from("extend operator"),
            }
        ),
        other => panic!("{:?}", other),
    }
    match parse(String::from("T | top 5 by a")) {
        Err(Error::Parser { error }) => assert_eq!(
            error,
            ParserError::NotYetSupported {
                span: Span::new(4, 3),
                feature: String::from("top operator"),
            }
        ),
        other => panic!("{:?}", other),
    }
}

#[test]
fn lexer_errors_come_before_parser_errors() {
    match parse(String::from("T | # where ?")) {
        Err(Error::Lexer { errors }) => {
            assert_eq!(errors.len(), 2);
            assert_eq!(errors[0].span, Span::new(4, 1));
            assert_eq!(errors[1].span, Span::new(12, 1));
        }
        other => panic!("{:?}", other),
    }
}

#[test]
fn limit_and_take() {
    let parsed = parse(String::from("T | limit 10 | take int(3)")).unwrap();
    assert_eq!(
        parsed.operators,
        vec![
            (name("limit", 4), TabularOperator::Limit { limit: M::new(10, Span::new(10, 2)) }),
            (name("take", 15), TabularOperator::Limit { limit: M::new(3, Span::new(20, 6)) }),
        ]
    );
    assert!(matches!(
        parse(String::from("T | take x")),
        Err(Error::Parser { error: ParserError::UnexpectedToken { .. } })
    ));
    assert!(matches!(
        parse(String::from("T | take")),
        Err(Error::Parser { error: ParserError::EndOfInput })
    ));
}

#[test]
fn project_columns() {
    let parsed = parse(String::from("T | project a, b = c")).unwrap();
    assert_eq!(
        parsed.operators,
        vec![(
            name("project", 4),
            TabularOperator::Project {
                columns: vec![
                    ColumnDefinition { column: name("a", 12), expr: None },
                    ColumnDefinition { column: name("b", 15), expr: Some(identifier("c", 19)) },
                ],
            }
        )]
    );
}

#[test]
fn project_without_columns() {
    let parsed = parse(String::from("T | project | count")).unwrap();
    assert_eq!(
        parsed.operators,
        vec![
            (name("project", 4), TabularOperator::Project { columns: vec![] }),
            (name("count", 14), TabularOperator::Count),
        ]
    );
    assert_eq!(
        parse(String::from("T | project")).unwrap().operators,
        vec![(name("project", 4), TabularOperator::Project { columns: vec![] })]
    );
    assert_eq!(
        parse_project(&mut make_input("")),
        Ok(TabularOperator::Project { columns: vec![] })
    );
    let mut input = make_input("(U | project) a");
    match parse_join(&mut input).unwrap() {
        TabularOperator::Join { right_table, attributes, .. } => {
            assert_eq!(
                right_table.operators,
                vec![(name("project", 5), TabularOperator::Project { columns: vec![] })]
            );
            assert_eq!(attributes, vec![JoinAttribute::Matching { name: name("a", 14) }]);
        }
        other => panic!("{:?}", other),
    }
    assert!(matches!(
        parse(String::from("T | project 5")),
        Err(Error::Parser { error: ParserError::UnexpectedToken { .. } })
    ));
    assert!(matches!(
        parse(String::from("T | project a,")),
        Err(Error::Parser { error: ParserError::EndOfInput })
    ));
}

#[test]
fn distinct_columns() {
    assert_eq!(
        parse(String::from("T | distinct *")).unwrap().operators,
        vec![(
            name("distinct", 4),
            TabularOperator::Distinct { columns: Columns::Wildcard(Span::new(13, 1)) }
        )]
    );
    assert_eq!(
        parse(String::from("T | distinct a, b")).unwrap().operators,
        vec![(
            name("distinct", 4),
            TabularOperator::Distinct {
                columns: Columns::Explicit(vec![name("a", 13), name("b", 16)])
            }
        )]
    );
}

#[test]
fn where_takes_one_expression() {
    let parsed = parse(String::from("T | where a > 1")).unwrap();
    assert_eq!(
        parsed.operators,
        vec![(
            name("where", 4),
            TabularOperator::Where {
                expr: bin(
                    identifier("a", 10),
                    op(BinaryOp::GT, (12, 1)),
                    lit(Some(1), (14, 1)),
                    (10, 5)
                ),
            }
        )]
    );
    assert!(matches!(
        parse(String::from("T | where")),
        Err(Error::Parser { error: ParserError::EndOfInput })
    ));
}

#[test]
fn sort_with_and_without_order_and_nulls() {
    let parsed = parse(String::from(
        "T | sort by a, b desc, c nulls last, d asc nulls first | order by e",
    ))
    .unwrap();
    assert_eq!(
        parsed.operators,
        vec![
            (
                name("sort", 4),
                TabularOperator::Sort {
                    by_kwd: Span::new(9, 2),
                    sortings: vec![
                        Sorting { column: name("a", 12), order: None, nulls: None },
                        Sorting {
                            column: name("b", 15),
                            order: Some(M::new(SortOrder::Descending, Span::new(17, 4))),
                            nulls: None,
                        },
                        Sorting {
                            column: name("c", 23),
                            order: None,
                            nulls: Some((
                                Span::new(25, 5),
                                M::new(NullsPosition::Last, Span::new(31, 4))
                            )),
                        },
                        Sorting {
                            column: name("d", 37),
                            order: Some(M::new(SortOrder::Ascending, Span::new(39, 3))),
                            nulls: Some((
                                Span::new(43, 5),
                                M::new(NullsPosition::First, Span::new(49, 5))
                            )),
                        },
                    ],
                }
            ),
            (
                name("order", 57),
                TabularOperator::Sort {
                    by_kwd: Span::new(63, 2),
                    sortings: vec![Sorting { column: name("e", 66), order: None, nulls: None }],
                }
            ),
        ]
    );
}

#[test]
fn sort_errors() {
    match parse(String::from("T | sort a")) {
        Err(Error::Parser { error }) => assert_eq!(
            error,
            ParserError::UnexpectedToken {
                span: Span::new(9, 1),
                description: String::from("Expected 'by' keyword"),
                token: Token::Term(String::from("a")),
            }
        ),
        other => panic!("{:?}", other),
    }
    match parse(String::from("T | sort by 5")) {
        Err(Error::Parser { error }) => assert_eq!(
            error,
            ParserError::UnexpectedToken {
                span: Span::new(12, 1),
                description: String::from("Expected column name"),
                token: Token::LongLiteral(5),
            }
        ),
        other => panic!("{:?}", other),
    }
    assert!(matches!(
        parse(String::from("T | sort by")),
        Err(Error::Parser { error: ParserError::EndOfInput })
    ));
    match parse(String::from("T | sort by a nulls middle")) {
        Err(Error::Parser { error }) => assert_eq!(
            error,
            ParserError::UnexpectedToken {
                span: Span::new(20, 6),
                description: String::from("Expected nulls position"),
                token: Token::Term(String::from("middle")),
            }
        ),
        other => panic!("{:?}", other),
    }
}

#[test]
fn summarize_columns() {
    let parsed = parse(String::from("T | summarize n = count(x) by a")).unwrap();
    match &parsed.operators[0].1 {
        TabularOperator::Summarize { result_columns, by_kwd, grouping_columns } => {
            assert_eq!(result_columns.len(), 1);
            assert_eq!(result_columns[0].column, name("n", 14));
            assert_eq!(*by_kwd, Span::new(27, 2));
            assert_eq!(
                *grouping_columns,
                vec![ColumnDefinition { column: name("a", 30), expr: None }]
            );
        }
        other => panic!("{:?}", other),
    }
}

#[test]
fn join_holds_the_other_query() {
    let mut input = make_input("leftanti (Other | take 1) a, $left.b == $right.c | count");
    let parsed = parse_join(&mut input).unwrap();
    assert_eq!(
        parsed,
        TabularOperator::Join {
            params: JoinParams { kind: Some(JoinKind::LeftAnti) },
            right_table: Box::new(Query {
                table: name("Other", 10),
                operators: vec![(
                    name("take", 18),
                    TabularOperator::Limit { limit: M::new(1, Span::new(23, 1)) }
                )],
            }),
            attributes: vec![
                JoinAttribute::Matching { name: name("a", 26) },
                JoinAttribute::NonMatching {
                    left_kwd: Span::new(29, 5),
                    left_name: name("b", 35),
                    right_kwd: Span::new(40, 6),
                    right_name: name("c", 47),
                },
            ],
        }
    );
    assert_eq!(input.next_if(Token::Pipe), Some(Span::new(49, 1)));
}

#[test]
fn join_errors() {
    let error = |source: &str| parse_join(&mut make_input(source)).unwrap_err();
    assert_eq!(
        error("sideways (T) a"),
        ParserError::UnexpectedToken {
            span: Span::new(0, 8),
            description: String::from("Expected join parameter or '(table_name)'"),
            token: Token::Term(String::from("sideways")),
        }
    );
    assert!(matches!(
        error("inner T"),
        ParserError::UnexpectedToken { description, .. }
            if description == "Expected left paranthesis before table name"
    ));
    assert!(matches!(
        error("(T a"),
        ParserError::UnexpectedToken { description, .. }
            if description == "Expected right paranthesis after table name"
    ));
    assert!(matches!(
        error("(T) $right.a == $left.b"),
        ParserError::UnexpectedToken { description, .. } if description == "'left' keyword expected"
    ));
    assert!(matches!(
        error("(T) $left a"),
        ParserError::UnexpectedToken { description, .. } if description == "Dot expected"
    ));
    assert!(matches!(
        error("(T) $left.a = $right.b"),
        ParserError::UnexpectedToken { description, .. } if description == "'==' expected"
    ));
    assert!(matches!(
        error("(T) $left.a == $left.b"),
        ParserError::UnexpectedToken { description, .. } if description == "'right' keyword expected"
    ));
    assert!(matches!(
        error("(T) 5"),
        ParserError::UnexpectedToken { description, .. } if description == "Term expected"
    ));
    assert_eq!(error("(T)"), ParserError::EndOfInput);
}

#[test]
fn join_kinds_return_columns() {
    assert_eq!(JoinKind::LeftAnti.return_columns(), JoinReturnColumns::Left);
    assert_eq!(JoinKind::LeftSemi.return_columns(), JoinReturnColumns::Left);
    assert_eq!(JoinKind::RightAnti.return_columns(), JoinReturnColumns::Right);
    assert_eq!(JoinKind::RightSemi.return_columns(), JoinReturnColumns::Right);
    assert_eq!(JoinKind::InnerUnique.return_columns(), JoinReturnColumns::Both);
    assert_eq!(JoinKind::Inner.return_columns(), JoinReturnColumns::Both);
    assert_eq!(JoinKind::LeftOuter.return_columns(), JoinReturnColumns::Both);
    assert_eq!(JoinKind::RightOuter.return_columns(), JoinReturnColumns::Both);
    assert_eq!(JoinKind::FullOuter.return_columns(), JoinReturnColumns::Both);
}

#[test]
fn kebab_names_need_touching_words() {
    match parse(String::from("T | project-away a")) {
        Err(Error::Parser { error }) => assert_eq!(
            error,
            ParserError::General {
                span: Span::new(12, 4),
                message: String::from("No tabular operator with this name"),
            }
        ),
        other => panic!("{:?}", other),
    }
    let mut input = make_input("take - x");
    assert_eq!(parse_query(&mut input).unwrap().table, name("take", 0));
    assert_eq!(input.next_if(Token::Sub), Some(Span::new(5, 1)));
}

#[test]
fn spans_join_and_precede() {
    assert_eq!(join_spans(Span::new(2, 3), Span::new(7, 4)), Span::new(2, 9));
    assert_eq!(join_spans(Span::new(2, 3), Span::new(2, 3)), Span::new(2, 3));
    assert!(span_precedes_span(Span::new(2, 3), Span::new(5, 1)));
    assert!(!span_precedes_span(Span::new(2, 3), Span::new(6, 1)));
    assert!(!span_precedes_span(Span::new(usize::MAX, 3), Span::new(2, 1)));
    assert_eq!(M::new_range(7, Span::new(1, 1), Span::new(4, 2)), M::new(7, Span::new(1, 5)));
    assert_eq!(
        MBox::new_range(7, Span::new(1, 1), Span::new(4, 2)),
        MBox::new(7, Span::new(1, 5))
    );
}

#[test]
fn tape_is_read_one_token_at_a_time() {
    let mut input = make_input("a ( b");
    assert!(!input.done());
    assert!(input.has(3));
    assert!(!input.has(4));
    let start = input.checkpoint();
    assert_eq!(input.peek().unwrap().value, Token::Term(String::from("a")));
    assert_eq!(input.next().unwrap().value, Token::Term(String::from("a")));
    assert_eq!(input.next_if(Token::RParen), None);
    assert_eq!(input.assert_next(Token::LParen, "open"), Ok(Span::new(2, 1)));
    assert_eq!(
        input.assert_next(Token::RParen, "close"),
        Err(ParserError::UnexpectedToken {
            span: Span::new(4, 1),
            description: String::from("close"),
            token: Token::Term(String::from("b")),
        })
    );
    assert!(input.done());
    assert!(matches!(input.peek(), Err(ParserError::EndOfInput)));
    assert!(matches!(input.next(), Err(ParserError::EndOfInput)));
    assert_eq!(input.unexpected_token("past the end"), ParserError::EndOfInput);
    input.restore(start);
    assert_eq!(input.general_error("nothing read"), ParserError::EndOfInput);
    assert_eq!(input.next_if(Token::Term(String::from("a"))), Some(Span::new(0, 1)));
    assert_eq!(
        input.general_error("message"),
        ParserError::General { span: Span::new(0, 1), message: String::from("message") }
    );
    assert_eq!(
        input.unsupported_error("feature"),
        ParserError::NotYetSupported { span: Span::new(0, 1), feature: String::from("feature") }
    );
}

#[test]
fn several_tokens_are_read_at_once() {
    let mut input = make_input("a , b");
    assert!(matches!(input.slice_next(4), Err(ParserError::EndOfInput)));
    let first: Vec<Token> = input.slice_next(2).unwrap().iter().map(|t| t.value.clone()).collect();
    assert_eq!(first, vec![Token::Term(String::from("a")), Token::Comma]);
    assert!(matches!(input.slice_next(2), Err(ParserError::EndOfInput)));
    assert_eq!(input.slice_next(0).unwrap().len(), 0);
    assert_eq!(input.slice_next(1).unwrap()[0].span, Span::new(4, 1));
    assert!(input.done());
}

#[test]
fn table_and_operator_names_stand_in_order() {
    let source = "T | where a > 1 | project b = f(a), c | take 3 | join (U | take 1 | project) d";
    let parsed = parse(String::from(source)).unwrap();
    fn check(query: &Query, limit: usize) {
        let mut end = query.table.span.offset + query.table.span.len;
        let mut start = query.table.span.offset;
        for (name, operator) in &query.operators {
            assert!(end <= name.span.offset);
            assert!(start < name.span.offset);
            start = name.span.offset;
            end = name.span.offset + name.span.len;
            assert!(end <= limit);
            if let TabularOperator::Join { right_table, .. } = operator {
                check(right_table, limit);
            }
        }
    }
    check(&parsed, source.len());
    assert_eq!(parsed.operators.len(), 4);
}
