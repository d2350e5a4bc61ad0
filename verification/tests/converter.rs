use kql_converter::ast::expression::{BinaryOp, Expression, Literal};
use kql_converter::ast::query::{ColumnDefinition, TabularOperator};
use kql_converter::converter::direct::{column_definition, expression};
use kql_converter::converter::ktos::{ktos_column_definition, ktos_expression};
use kql_converter::converter::merge::{attempt_merge, MergeOutcome};
use kql_converter::converter::merger::Merger;
use kql_converter::converter::{convert, kql_to_sql, ConverterError, KqlToSqlError};
use kql_converter::numbers::Real;
use kql_converter::parse;
use kql_converter::parser::ParserError;
use kql_converter::spans::{MBox, Span, M};
use kql_converter::sql::ast as sast;
use kql_converter::sql::emit;

fn to_sql(kql: &str) -> String {
    match kql_to_sql(kql.to_string()) {
        Ok(sql) => sql,
        Err(error) => panic!("Failed to convert '{}': {:?}", kql, error),
    }
}

fn nesting(statement: &sast::SelectStatement) -> usize {
    match &statement.from {
        sast::TableReference::TableName { .. } => 0,
        sast::TableReference::InnerStatement { value } => 1 + nesting(value),
    }
}

fn converted(kql: &str) -> sast::SelectStatement {
    convert(parse(kql.to_string()).unwrap()).unwrap()
}

fn column(name: &str) -> Box<sast::ValueExpression> {
    Box::new(sast::ValueExpression::Column { name: name.to_string() })
}

#[test]
fn table_alone() {
    assert_eq!(to_sql("Users"), "SELECT *\nFROM Users\n");
    assert_eq!(to_sql("Tbl"), "SELECT *\nFROM Tbl\n");
}

#[test]
fn project_names() {
    assert_eq!(to_sql("Users | project Name, Age"), "SELECT Name, Age\nFROM Users\n");
}

#[test]
fn project_computed_column() {
    assert_eq!(
        to_sql("Users | project Full = concat(First, Last)"),
        "SELECT concat(First, Last) as Full\nFROM Users\n"
    );
}

#[test]
fn where_condition() {
    assert_eq!(to_sql("Users | where Age > 18"), "SELECT *\nFROM Users\nWHERE Age > 18\n");
}

#[test]
fn where_on_computed_column_wraps() {
    assert_eq!(
        to_sql("Users | project D = A + B | where D > 0"),
        "SELECT *\nFROM (\n    SELECT A + B as D\n    FROM Users\n)\nWHERE D > 0\n"
    );
}

#[test]
fn where_on_table_column_does_not_wrap() {
    assert_eq!(
        to_sql("Users | project D = A + B | where A > 0"),
        "SELECT A + B as D\nFROM Users\nWHERE A > 0\n"
    );
    assert_eq!(
        to_sql("Users | project x = y + 1, y | where y > 0"),
        "SELECT y + 1 as x, y\nFROM Users\nWHERE y > 0\n"
    );
    assert_eq!(nesting(&converted("Users | project x = y + 1 | where y > 0")), 0);
    assert_eq!(nesting(&converted("Users | project x = y + 1 | where x > 0")), 1);
    assert_eq!(nesting(&converted("Users | project x = y + 1 | where f(1, x) > 0")), 1);
    assert_eq!(nesting(&converted("Users | project x, z = y | where x > 0")), 0);
}

#[test]
fn take_twice_wraps() {
    assert_eq!(
        to_sql("Users | take 5 | take 3"),
        "SELECT *\nFROM (\n    SELECT *\n    FROM Users\n    LIMIT 5\n)\nLIMIT 3\n"
    );
}

#[test]
fn where_twice_wraps() {
    assert_eq!(
        to_sql("T | where a > 1 | where b < 2"),
        "SELECT *\nFROM (\n    SELECT *\n    FROM T\n    WHERE a > 1\n)\nWHERE b < 2\n"
    );
}

#[test]
fn project_twice_wraps() {
    assert_eq!(
        to_sql("T | project a, b | project a"),
        "SELECT a\nFROM (\n    SELECT a, b\n    FROM T\n)\n"
    );
}

#[test]
fn where_then_project_then_limit_share_one_statement() {
    assert_eq!(
        to_sql("T | where a == 1 | project a | limit 10"),
        "SELECT a\nFROM T\nWHERE a == 1\nLIMIT 10\n"
    );
}

#[test]
fn nesting_is_the_number_of_wraps() {
    let cases = [
        ("T", 0),
        ("T | take 1", 0),
        ("T | take 1 | take 2 | take 3", 2),
        ("T | where a > 1 | take 1 | project a", 0),
        ("T | project a | project b | project c", 2),
        ("T | project x = a | where x > 1 | where x > 2 | take 1 | take 2", 3),
        ("T | take 1 | project a | take 2", 1),
    ];
    for (source, wraps) in cases {
        assert_eq!(nesting(&converted(source)), wraps, "{}", source);
    }
}

#[test]
fn wrapped_three_deep() {
    assert_eq!(
        to_sql("T | take 1 | take 2 | take 3"),
        "SELECT *\nFROM (\n    SELECT *\n    FROM (\n        SELECT *\n        FROM T\n        \
         LIMIT 1\n    )\n    LIMIT 2\n)\nLIMIT 3\n"
    );
}

#[test]
fn conditions_with_and_and_or() {
    assert_eq!(
        to_sql("T | where a > 1 and b <= 2 or c != 'x'"),
        "SELECT *\nFROM T\nWHERE a > 1 AND b <= 2 OR c != x\n"
    );
    assert_eq!(
        to_sql("T | where a >= b - 1 or c < d * 2 and e == f / g"),
        "SELECT *\nFROM T\nWHERE a >= b - 1 OR c < d * 2 AND e == f / g\n"
    );
}

#[test]
fn literals_in_values() {
    assert_eq!(
        to_sql("T | project a = true, b = int(-7), c = 12, d = 1.50, e = 'it', f = false"),
        "SELECT true as a, -7 as b, 12 as c, 1.50 as d, it as e, false as f\nFROM T\n"
    );
    assert_eq!(
        to_sql("T | project a = bool(null), b = int(null), c = long(null), d = real(null)"),
        "SELECT NULL as a, NULL as b, NULL as c, NULL as d\nFROM T\n"
    );
    assert_eq!(
        to_sql("T | project a = real(nan), b = real(+inf), c = real(-inf)"),
        "SELECT NaN as a, inf as b, -inf as c\nFROM T\n"
    );
    assert_eq!(
        to_sql("T | project a = -9223372036854775807, b = 9223372036854775807, c = 0"),
        "SELECT -9223372036854775807 as a, 9223372036854775807 as b, 0 as c\nFROM T\n"
    );
}

#[test]
fn empty_project_selects_nothing() {
    assert_eq!(to_sql("T | project | take 1"), "SELECT \nFROM T\nLIMIT 1\n");
    assert_eq!(to_sql("T | project"), "SELECT \nFROM T\n");
}

#[test]
fn condition_has_to_be_a_condition() {
    let cases = [
        ("T | where a", Span::new(10, 1)),
        ("T | where f(a)", Span::new(10, 4)),
        ("T | where 5", Span::new(10, 1)),
        ("T | where a + b", Span::new(10, 5)),
        ("T | where a % b", Span::new(10, 5)),
        ("T | where a > 1 and b", Span::new(20, 1)),
        ("T | where (a - 1) or b > 1", Span::new(11, 5)),
    ];
    for (source, span) in cases {
        match kql_to_sql(source.to_string()) {
            Err(KqlToSqlError::Converter { error }) => {
                assert_eq!(error, ConverterError::ExpressionNotCondition { span }, "{}", source)
            }
            other => panic!("{}: {:?}", source, other),
        }
    }
}

#[test]
fn operators_without_a_place_in_values() {
    let cases = [
        ("T | project a = b % c", Span::new(18, 1), "modulo operator"),
        ("T | project a = b and c", Span::new(18, 3), "logical operator in a value expression"),
        ("T | project a = b or c", Span::new(18, 2), "logical operator in a value expression"),
        ("T | project a = b < c", Span::new(18, 1), "comparison operator in a value expression"),
        ("T | where (a == b) == c", Span::new(13, 2), "comparison operator in a value expression"),
        ("T | project a = f(b, c % d, e > 1)", Span::new(23, 1), "modulo operator"),
    ];
    for (source, span, feature) in cases {
        match kql_to_sql(source.to_string()) {
            Err(KqlToSqlError::Converter { error }) => assert_eq!(
                error,
                ConverterError::NotImplemented { span, feature: feature.to_string() },
                "{}",
                source
            ),
            other => panic!("{}: {:?}", source, other),
        }
    }
}

#[test]
fn operators_without_a_conversion() {
    let cases = [
        ("T | count", Span::new(4, 5), "count operator"),
        ("T | distinct a", Span::new(4, 8), "distinct operator"),
        ("T | join (U) a", Span::new(4, 4), "join operator"),
        ("T | sort by a", Span::new(4, 4), "sort operator"),
        ("T | order by a desc", Span::new(4, 5), "sort operator"),
        ("T | summarize a = f(b) by c", Span::new(4, 9), "summarize operator"),
        ("T | take 1 | count | take 2", Span::new(13, 5), "count operator"),
    ];
    for (source, span, feature) in cases {
        match kql_to_sql(source.to_string()) {
            Err(KqlToSqlError::Converter { error }) => assert_eq!(
                error,
                ConverterError::NotImplemented { span, feature: feature.to_string() },
                "{}",
                source
            ),
            other => panic!("{}: {:?}", source, other),
        }
    }
}

#[test]
fn operators_built_by_hand_are_not_implemented() {
    let name = M::new(String::from("top"), Span::new(4, 3));
    let operator = TabularOperator::Top {
        limit: M::new(1, Span::new(8, 1)),
        by_kwd: Span::new(10, 2),
        expr: MBox::new(
            Expression::Identifier { name: M::new(String::from("a"), Span::new(13, 1)) },
            Span::new(13, 1),
        ),
        order: None,
        nulls: None,
    };
    let head = sast::SelectStatement::simple(String::from("T"));
    match Merger::new().merge_operator(head, name, operator) {
        Err(error) => assert_eq!(
            error,
            ConverterError::NotImplemented {
                span: Span::new(4, 3),
                feature: String::from("top operator")
            }
        ),
        Ok(_) => panic!(),
    }
    let name = M::new(String::from("extend"), Span::new(4, 6));
    let head = sast::SelectStatement::simple(String::from("T"));
    match Merger::new().merge_operator(head, name, TabularOperator::Extend { columns: vec![] }) {
        Err(error) => assert_eq!(
            error,
            ConverterError::NotImplemented {
                span: Span::new(4, 6),
                feature: String::from("extend operator")
            }
        ),
        Ok(_) => panic!(),
    }
}

#[test]
fn every_stage_reports_its_error() {
    assert!(matches!(
        kql_to_sql(String::from("T | where a ? 1")),
        Err(KqlToSqlError::Lexer { errors }) if errors.len() == 1 && errors[0].span == Span::new(12, 1)
    ));
    assert!(matches!(
        kql_to_sql(String::from("T |")),
        Err(KqlToSqlError::Parser { error: ParserError::EndOfInput })
    ));
    assert!(matches!(
        kql_to_sql(String::from("")),
        Err(KqlToSqlError::Parser { error: ParserError::EndOfInput })
    ));
    assert!(matches!(
        kql_to_sql(String::from("T | count")),
        Err(KqlToSqlError::Converter { .. })
    ));
}

#[test]
fn expressions_convert_to_values() {
    let span = Span::new(0, 1);
    let literal = |value: Literal| Expression::Literal { value };
    assert_eq!(
        expression(literal(Literal::Int(Some(-5)))),
        Ok(Box::new(sast::ValueExpression::Literal { value: sast::Literal::Integer(Some(-5)) }))
    );
    assert_eq!(
        expression(literal(Literal::Long(None))),
        Ok(Box::new(sast::ValueExpression::Literal { value: sast::Literal::Integer(None) }))
    );
    assert_eq!(
        expression(literal(Literal::Real(Some(Real::Decimal(String::from("2.5")))))),
        Ok(Box::new(sast::ValueExpression::Literal {
            value: sast::Literal::Real(Some(Real::Decimal(String::from("2.5"))))
        }))
    );
    let a = || MBox::new(Expression::Identifier { name: M::new(String::from("a"), span) }, span);
    assert_eq!(
        expression(Expression::BinaryOp { left: a(), op: M::new(BinaryOp::Div, span), right: a() }),
        Ok(Box::new(sast::ValueExpression::ArithmeticExpr {
            left: column("a"),
            op: sast::ArithmeticOperator::Div,
            right: column("a"),
        }))
    );
    assert_eq!(
        Merger::new().to_value_expression(a()),
        Ok(column("a"))
    );
}

#[test]
fn column_definitions_convert_to_selected_columns() {
    let span = Span::new(0, 1);
    assert_eq!(
        column_definition(ColumnDefinition { column: M::new(String::from("a"), span), expr: None }),
        Ok(sast::SelectColumn { value: column("a"), alias: None })
    );
    assert_eq!(
        column_definition(ColumnDefinition {
            column: M::new(String::from("a"), span),
            expr: Some(MBox::new(
                Expression::Identifier { name: M::new(String::from("b"), span) },
                span
            )),
        }),
        Ok(sast::SelectColumn { value: column("b"), alias: Some(String::from("a")) })
    );
}

#[test]
fn depends_on_any_finds_columns() {
    let names = |list: &[&str]| list.iter().map(|s| s.to_string()).collect::<Vec<String>>();
    let call = sast::ValueExpression::FuncCall {
        name: String::from("x"),
        args: vec![
            Box::new(sast::ValueExpression::Literal {
                value: sast::Literal::String(String::from("a")),
            }),
            Box::new(sast::ValueExpression::ArithmeticExpr {
                left: column("b"),
                op: sast::ArithmeticOperator::Add,
                right: column("c"),
            }),
        ],
    };
    assert!(!call.depends_on_any(&names(&[])));
    assert!(!call.depends_on_any(&names(&["a", "x", "d"])));
    assert!(call.depends_on_any(&names(&["a", "c"])));
    assert!(call.depends_on_any(&names(&["b"])));
    let cond = sast::SearchCondition::BoolExpr {
        left: Box::new(sast::SearchCondition::ComparisonExpr {
            left: column("p"),
            op: sast::ComparisonOperator::LT,
            right: Box::new(call),
        }),
        op: sast::BoolOperator::OR,
        right: Box::new(sast::SearchCondition::ComparisonExpr {
            left: column("q"),
            op: sast::ComparisonOperator::NEQ,
            right: column("r"),
        }),
    };
    assert!(cond.depends_on_any(&names(&["r"])));
    assert!(cond.depends_on_any(&names(&["z", "c"])));
    assert!(cond.depends_on_any(&names(&["p"])));
    assert!(!cond.depends_on_any(&names(&["x", "a", "OR"])));
}

#[test]
fn emit_prints_every_clause() {
    let statement = sast::SelectStatement {
        modifier: Some(sast::Modifier::Distinct),
        select: sast::SelectList {
            wildcard: true,
            columns: vec![sast::SelectColumn { value: column("a"), alias: Some(String::from("b")) }],
        },
        from: sast::TableReference::TableName { name: String::from("T") },
        where_: Some(Box::new(sast::SearchCondition::ComparisonExpr {
            left: column("a"),
            op: sast::ComparisonOperator::GTE,
            right: column("c"),
        })),
        order_by: Some(sast::OrderByClause {
            specs: vec![
                sast::SortSpecification {
                    column_name: String::from("a"),
                    order: sast::SortOrder::Ascending,
                },
                sast::SortSpecification {
                    column_name: String::from("c"),
                    order: sast::SortOrder::Descending,
                },
            ],
        }),
        limit: Some(7),
    };
    assert_eq!(
        emit(&statement).unwrap(),
        "SELECT DISTINCT *, a as b\nFROM T\nWHERE a >= c\nORDER BY a ASC, c DESC\nLIMIT 7\n"
    );
    let all = sast::SelectStatement {
        modifier: Some(sast::Modifier::All),
        limit: Some(i64::MIN),
        ..sast::SelectStatement::simple(String::from("T"))
    };
    assert_eq!(emit(&all).unwrap(), "SELECT ALL *\nFROM T\nLIMIT -9223372036854775808\n");
}

#[test]
fn projection_folds_into_a_head_that_selects_everything() {
    let span = Span::new(0, 1);
    let operator = TabularOperator::Project {
        columns: vec![
            ColumnDefinition { column: M::new(String::from("a"), span), expr: None },
            ColumnDefinition {
                column: M::new(String::from("b"), span),
                expr: Some(MBox::new(
                    Expression::Identifier { name: M::new(String::from("c"), span) },
                    span,
                )),
            },
        ],
    };
    let mut head = sast::SelectStatement::simple(String::from("T"));
    head.limit = Some(4);
    assert_eq!(attempt_merge(&mut head, &operator), Ok(MergeOutcome::Combined));
    assert_eq!(emit(&head).unwrap(), "SELECT a as a, c as b\nFROM T\nLIMIT 4\n");
    assert_eq!(attempt_merge(&mut head, &operator), Ok(MergeOutcome::CannotCombine));
    assert_eq!(emit(&head).unwrap(), "SELECT a as a, c as b\nFROM T\nLIMIT 4\n");
}

#[test]
fn definitions_that_name_columns() {
    let span = Span::new(3, 1);
    let b = Expression::Identifier { name: M::new(String::from("b"), span) };
    assert_eq!(ktos_expression(&b), Ok(column("b")));
    assert_eq!(
        ktos_column_definition(&ColumnDefinition {
            column: M::new(String::from("a"), span),
            expr: Some(MBox::new(b, span)),
        }),
        Ok(sast::SelectColumn { value: column("b"), alias: Some(String::from("a")) })
    );
    assert_eq!(
        ktos_column_definition(&ColumnDefinition {
            column: M::new(String::from("a"), span),
            expr: None,
        }),
        Ok(sast::SelectColumn { value: column("a"), alias: Some(String::from("a")) })
    );
}

#[test]
fn any_text_gives_sql_or_an_error() {
    let words = [
        "T", "|", "where", "project", "take", "limit", "sort", "by", "a", "b", "=", "==", ">",
        "and", "or", "+", "*", "(", ")", ",", "1", "2.5", "'s'", "f", "count", "join", "$left",
        ".", "-", "desc", "nulls", "last", "summarize", "distinct", "int(3)", "%", "#",
    ];
    let mut state: u64 = 0x9E3779B97F4A7C15;
    let mut step = || {
        state ^= state << 13;
        state ^= state >> 7;
        state ^= state << 17;
        state
    };
    let mut converted = 0;
    for _ in 0..3000 {
        let len = (step() % 12) as usize;
        let mut text = String::from("T");
        for _ in 0..len {
            text.push(' ');
            text.push_str(words[(step() % words.len() as u64) as usize]);
        }
        let first = kql_to_sql(text.clone());
        assert_eq!(first, kql_to_sql(text.clone()), "{}", text);
        if let Ok(sql) = first {
            converted += 1;
            assert!(sql.starts_with("SELECT "), "{}", text);
            assert!(sql.ends_with('\n'), "{}", text);
            let statement = convert(parse(text.clone()).unwrap()).unwrap();
            let depth = nesting(&statement);
            assert_eq!(sql.matches("FROM (\n").count(), depth, "{}", text);
            assert_eq!(sql.matches("SELECT ").count(), depth + 1, "{}", text);
        }
    }
    assert!(converted > 100);
}

#[test]
fn printed_limits_are_read_back() {
    for limit in [i64::MIN, -1, 0, 1, i64::MAX] {
        let sql = to_sql(&format!("T | take {}", limit));
        assert_eq!(sql, format!("SELECT *\nFROM T\nLIMIT {}\n", limit));
        let number = sql.lines().last().unwrap().trim_start_matches("LIMIT ");
        assert_eq!(to_sql(&format!("T | take {}", number)), sql);
    }
    assert_eq!(
        to_sql("T | project a = int(-2147483648)"),
        "SELECT -2147483648 as a\nFROM T\n"
    );
}
