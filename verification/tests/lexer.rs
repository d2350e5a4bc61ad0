use kql_converter::lexer::scan::{
    parse_escaped_char, parse_int_dec_literal, parse_int_hex_literal, parse_long_dec_literal,
    parse_long_hex_literal, parse_multiline_string_literal, parse_string_literal,
    parse_verbatim_string_literal,
};
use kql_converter::lexer::{lex, tokenize, LexerError, Token, TokenData};
use kql_converter::numbers::Real;
use kql_converter::spans::{Span, M};

fn to_token_data(d: (Span, Token)) -> TokenData {
    M::new(d.1, d.0)
}

fn span(start: usize, end: usize) -> Span {
    Span::new(start, end - start)
}

fn kinds(source: &str) -> Vec<Token> {
    lex(source).into_iter().map(|token| token.value).collect()
}

#[test]
fn tokenize_fn_declaration() {
    let contents: String = "StormEvents | take 5 | extend Duration = EndTime - StartTime".into();
    let output = vec![
        (span(0, 11), Token::Term(String::from("StormEvents"))),
        (span(12, 13), Token::Pipe),
        (span(14, 18), Token::Term(String::from("take"))),
        (span(19, 20), Token::LongLiteral(5)),
        (span(21, 22), Token::Pipe),
        (span(23, 29), Token::Term(String::from("extend"))),
        (span(30, 38), Token::Term(String::from("Duration"))),
        (span(39, 40), Token::Assign),
        (span(41, 48), Token::Term(String::from("EndTime"))),
        (span(49, 50), Token::Sub),
        (span(51, 60), Token::Term(String::from("StartTime"))),
    ]
    .into_iter()
    .map(to_token_data)
    .collect::<Vec<TokenData>>();

    match tokenize(contents) {
        Ok(tokens) => assert_eq!(output, tokens),
        Err(_) => panic!("Should not have failed"),
    }
}

#[test]
fn empty_text_has_no_tokens() {
    assert_eq!(tokenize(String::new()), Ok(vec![]));
    assert_eq!(tokenize(String::from("  \n\t // only a comment")), Ok(vec![]));
}

#[test]
fn punctuation_and_operators() {
    assert_eq!(
        kinds("| ( ) { } [ ] , . = + - * / % < <= > >= == !="),
        vec![
            Token::Pipe,
            Token::LParen,
            Token::RParen,
            Token::LBrace,
            Token::RBrace,
            Token::LBracket,
            Token::RBracket,
            Token::Comma,
            Token::Dot,
            Token::Assign,
            Token::Add,
            Token::Sub,
            Token::Star,
            Token::Div,
            Token::Mod,
            Token::LT,
            Token::LTE,
            Token::GT,
            Token::GTE,
            Token::EQ,
            Token::NEQ,
        ]
    );
}

#[test]
fn longest_text_wins() {
    assert_eq!(kinds("<=="), vec![Token::LTE, Token::Assign]);
    assert_eq!(kinds("==="), vec![Token::EQ, Token::Assign]);
    assert_eq!(kinds("android"), vec![Token::Term(String::from("android"))]);
    assert_eq!(kinds("and or"), vec![Token::LogicalAnd, Token::LogicalOr]);
    assert_eq!(kinds("order"), vec![Token::Term(String::from("order"))]);
    assert_eq!(kinds("truest"), vec![Token::Term(String::from("truest"))]);
    assert_eq!(kinds("true false"), vec![Token::BoolLiteral(true), Token::BoolLiteral(false)]);
}

#[test]
fn terms_with_marks() {
    assert_eq!(
        kinds("_a1 !between $left"),
        vec![
            Token::Term(String::from("_a1")),
            Token::BangTerm(String::from("between")),
            Token::DollarTerm(String::from("left")),
        ]
    );
}

#[test]
fn typed_nulls() {
    assert_eq!(
        kinds("bool(null) int(null) long(null) real(null)"),
        vec![
            Token::BoolNullLiteral,
            Token::IntNullLiteral,
            Token::LongNullLiteral,
            Token::RealNullLiteral,
        ]
    );
    assert_eq!(
        kinds("bool(nul)"),
        vec![
            Token::Term(String::from("bool")),
            Token::LParen,
            Token::Term(String::from("nul")),
            Token::RParen,
        ]
    );
}

#[test]
fn int_literals() {
    assert_eq!(kinds("int(0)"), vec![Token::IntLiteral(0)]);
    assert_eq!(kinds("int(-17)"), vec![Token::IntLiteral(-17)]);
    assert_eq!(kinds("int(0x1F)"), vec![Token::IntLiteral(31)]);
    assert_eq!(kinds("int(2147483647)"), vec![Token::IntLiteral(i32::MAX)]);
    assert_eq!(kinds("int(-2147483647)"), vec![Token::IntLiteral(-i32::MAX)]);
    assert_eq!(kinds("int(0x7fffffff)"), vec![Token::IntLiteral(i32::MAX)]);
}

#[test]
fn int_literal_out_of_range_is_an_error() {
    assert_eq!(kinds("int(2147483648)"), vec![Token::Error]);
    assert_eq!(kinds("int(-2147483649)"), vec![Token::Error]);
    assert_eq!(kinds("int(0x80000000)"), vec![Token::Error]);
    assert_eq!(
        tokenize(String::from("x int(99999999999) y")),
        Err(vec![LexerError { span: Span::new(2, 16) }])
    );
}

#[test]
fn long_literals() {
    assert_eq!(kinds("0"), vec![Token::LongLiteral(0)]);
    assert_eq!(kinds("007"), vec![Token::LongLiteral(7)]);
    assert_eq!(kinds("-12"), vec![Token::LongLiteral(-12)]);
    assert_eq!(kinds("0xff"), vec![Token::LongLiteral(255)]);
    assert_eq!(kinds("0xAbC"), vec![Token::LongLiteral(0xabc)]);
    assert_eq!(kinds("long(42)"), vec![Token::LongLiteral(42)]);
    assert_eq!(kinds("long(-42)"), vec![Token::LongLiteral(-42)]);
    assert_eq!(kinds("long(0x10)"), vec![Token::LongLiteral(16)]);
    assert_eq!(kinds("9223372036854775807"), vec![Token::LongLiteral(i64::MAX)]);
    assert_eq!(kinds("-9223372036854775807"), vec![Token::LongLiteral(-i64::MAX)]);
    assert_eq!(kinds("0x7fffffffffffffff"), vec![Token::LongLiteral(i64::MAX)]);
}

#[test]
fn long_literal_out_of_range_is_an_error() {
    assert_eq!(kinds("9223372036854775808"), vec![Token::Error]);
    assert_eq!(kinds("-9223372036854775809"), vec![Token::Error]);
    assert_eq!(kinds("long(9223372036854775808)"), vec![Token::Error]);
    assert_eq!(kinds("long(-9223372036854775809)"), vec![Token::Error]);
    assert_eq!(kinds("0x8000000000000000"), vec![Token::Error]);
    assert_eq!(kinds("123456789012345678901234567890"), vec![Token::Error]);
}

#[test]
fn minus_before_a_digit_belongs_to_the_number() {
    assert_eq!(
        kinds("a -1"),
        vec![Token::Term(String::from("a")), Token::LongLiteral(-1)]
    );
    assert_eq!(
        kinds("a - 1"),
        vec![Token::Term(String::from("a")), Token::Sub, Token::LongLiteral(1)]
    );
    assert_eq!(
        kinds("0xg"),
        vec![Token::LongLiteral(0), Token::Term(String::from("xg"))]
    );
}

#[test]
fn real_literals() {
    assert_eq!(
        kinds("1.50"),
        vec![Token::RealLiteral(Real::Decimal(String::from("1.50")))]
    );
    assert_eq!(kinds("1."), vec![Token::LongLiteral(1), Token::Dot]);
    assert_eq!(
        kinds("real(nan) real(+inf) real(-inf)"),
        vec![
            Token::RealLiteral(Real::Nan),
            Token::RealLiteral(Real::Infinity),
            Token::RealLiteral(Real::NegInfinity),
        ]
    );
}

#[test]
fn real_literal_keeps_its_digits() {
    let text = "0.1000000000000000055511151231257827";
    assert_eq!(kinds(text), vec![Token::RealLiteral(Real::Decimal(String::from(text)))]);
    let value: f64 = text.parse().unwrap();
    assert_eq!(value, 0.1);
}

#[test]
fn string_literals() {
    assert_eq!(kinds("\"abc\""), vec![Token::StringLiteral(String::from("abc"))]);
    assert_eq!(kinds("'abc'"), vec![Token::StringLiteral(String::from("abc"))]);
    assert_eq!(kinds("'a\"b'"), vec![Token::StringLiteral(String::from("a\"b"))]);
    assert_eq!(kinds("\"\""), vec![Token::StringLiteral(String::new())]);
    assert_eq!(
        kinds(r#""a\"b\'c\\d\ne\rf\tg""#),
        vec![Token::StringLiteral(String::from("a\"b'c\\d\ne\rf\tg"))]
    );
}

#[test]
fn string_literal_spans_count_bytes() {
    let tokens = lex("\"héllo\" x");
    assert_eq!(
        tokens,
        vec![
            M::new(Token::StringLiteral(String::from("héllo")), Span::new(0, 8)),
            M::new(Token::Term(String::from("x")), Span::new(9, 1)),
        ]
    );
}

#[test]
fn string_literal_that_does_not_end_is_an_error() {
    assert_eq!(tokenize(String::from("\"abc")), Err(vec![LexerError { span: Span::new(0, 4) }]));
    assert_eq!(
        lex("\"ab\ncd"),
        vec![
            M::new(Token::Error, Span::new(0, 3)),
            M::new(Token::Term(String::from("cd")), Span::new(4, 2)),
        ]
    );
    assert_eq!(
        lex("'a\\qb'"),
        vec![
            M::new(Token::Error, Span::new(0, 3)),
            M::new(Token::Term(String::from("qb")), Span::new(3, 2)),
            M::new(Token::Error, Span::new(5, 1)),
        ]
    );
}

#[test]
fn verbatim_string_literals() {
    assert_eq!(kinds(r#"@"a\b""#), vec![Token::StringLiteral(String::from("a\\b"))]);
    assert_eq!(kinds(r#"@'a\n'"#), vec![Token::StringLiteral(String::from("a\\n"))]);
    assert_eq!(kinds("@\"ab"), vec![Token::Error]);
    assert_eq!(kinds("@"), vec![Token::Error]);
}

#[test]
fn multiline_string_literals() {
    assert_eq!(kinds("```abc```"), vec![Token::StringLiteral(String::from("abc"))]);
    assert_eq!(kinds("```a`b``c```"), vec![Token::StringLiteral(String::from("a`b``c"))]);
    assert_eq!(kinds("``````"), vec![Token::StringLiteral(String::new())]);
    assert_eq!(kinds("```ab``"), vec![Token::Error]);
    assert_eq!(
        kinds("```ab\ncd"),
        vec![Token::Error, Token::Term(String::from("cd"))]
    );
}

#[test]
fn comments_run_to_the_end_of_the_line() {
    assert_eq!(
        lex("a // b | c\n| d"),
        vec![
            M::new(Token::Term(String::from("a")), Span::new(0, 1)),
            M::new(Token::Pipe, Span::new(11, 1)),
            M::new(Token::Term(String::from("d")), Span::new(13, 1)),
        ]
    );
}

#[test]
fn unknown_text_is_one_error_for_each_run() {
    assert_eq!(
        tokenize(String::from("a ### b ? c")),
        Err(vec![LexerError { span: Span::new(2, 3) }, LexerError { span: Span::new(8, 1) }])
    );
    assert_eq!(
        lex("a§§b"),
        vec![
            M::new(Token::Term(String::from("a")), Span::new(0, 1)),
            M::new(Token::Error, Span::new(1, 4)),
            M::new(Token::Term(String::from("b")), Span::new(5, 1)),
        ]
    );
    assert_eq!(kinds("! $ `` \r"), vec![Token::Error, Token::Error, Token::Error, Token::Error]);
}

#[test]
fn tokens_lie_in_order_within_the_text() {
    let source = "T | where a >= 10 and b == 'x y' // note\n| project c = f(a, -2.5), d | take 3";
    let tokens = lex(source);
    let mut end = 0;
    for token in &tokens {
        assert!(end <= token.span.offset);
        assert!(token.span.len > 0);
        let gap = &source[end..token.span.offset];
        assert!(gap.chars().all(|c| c == ' ' || c == '\n') || gap.trim_start().starts_with("//"));
        end = token.span.offset + token.span.len;
    }
    assert!(end <= source.len());
    assert_eq!(tokens.len(), 27);
}

#[test]
fn number_tokens_hold_what_their_text_says() {
    let source = "17 -4 0x2a int(9) long(-3) int(0xb)";
    for token in lex(source) {
        let text = &source[token.span.offset..token.span.offset + token.span.len];
        let digits = text
            .trim_start_matches("int(")
            .trim_start_matches("long(")
            .trim_end_matches(')');
        let expected = match digits.strip_prefix("0x") {
            Some(hex) => i64::from_str_radix(hex, 16).unwrap(),
            None => digits.parse::<i64>().unwrap(),
        };
        match token.value {
            Token::LongLiteral(value) => assert_eq!(value, expected),
            Token::IntLiteral(value) => assert_eq!(value as i64, expected),
            other => panic!("no number: {:?}", other),
        }
        assert_eq!(lex(text), vec![M::new(token.value, Span::new(0, text.len()))]);
    }
}

#[test]
fn printed_numbers_are_read_back() {
    for value in
        [0i64, 7, 10, 99, 100, 4096, -1, -10, -987654321, i64::MAX, -i64::MAX, i64::MIN]
    {
        for text in [value.to_string(), format!("long({})", value)] {
            assert_eq!(
                lex(&text),
                vec![M::new(Token::LongLiteral(value), Span::new(0, text.len()))],
                "{}",
                text
            );
        }
    }
    for value in [0i32, 5, -5, 1000000, i32::MAX, -i32::MAX, i32::MIN] {
        let text = format!("int({})", value);
        assert_eq!(
            lex(&text),
            vec![M::new(Token::IntLiteral(value), Span::new(0, text.len()))],
            "{}",
            text
        );
    }
}

#[test]
fn tokens_are_compared_and_copied() {
    let tokens = lex("a b 'a' 1 int(1) 1.0 real(nan) ( ) !a $a true bool(null)");
    for (i, left) in tokens.iter().enumerate() {
        assert!(left.value.same(&left.value.duplicate()));
        assert_eq!(left.value.duplicate(), left.value);
        for (j, right) in tokens.iter().enumerate() {
            assert_eq!(left.value.same(&right.value), i == j, "{:?} {:?}", left, right);
        }
    }
    assert!(Real::Decimal(String::from("1.0")).same(&Real::Decimal(String::from("1.0"))));
    assert!(!Real::Decimal(String::from("1.0")).same(&Real::Decimal(String::from("1.00"))));
    assert!(!Real::Nan.same(&Real::Infinity));
    assert!(Real::NegInfinity.same(&Real::NegInfinity.duplicate()));
}

#[test]
fn digits_next_to_symbols() {
    assert_eq!(kinds("5-3"), vec![Token::LongLiteral(5), Token::LongLiteral(-3)]);
    assert_eq!(
        kinds("x=-1"),
        vec![Token::Term(String::from("x")), Token::Assign, Token::LongLiteral(-1)]
    );
    assert_eq!(
        kinds("1.5.2"),
        vec![
            Token::RealLiteral(Real::Decimal(String::from("1.5"))),
            Token::Dot,
            Token::LongLiteral(2),
        ]
    );
    assert_eq!(
        kinds("-1.5"),
        vec![Token::LongLiteral(-1), Token::Dot, Token::LongLiteral(5)]
    );
    assert_eq!(
        kinds("a.b"),
        vec![Token::Term(String::from("a")), Token::Dot, Token::Term(String::from("b"))]
    );
    assert_eq!(
        kinds("int( 5 )"),
        vec![Token::Term(String::from("int")), Token::LParen, Token::LongLiteral(5), Token::RParen]
    );
    assert_eq!(kinds("INT(5)").len(), 4);
}

#[test]
fn any_text_splits_into_ordered_tokens() {
    let alphabet: Vec<char> =
        "ab_1 0x.-+*/%<>=!|(){}[],$@\"'`\\\n\r\té#;int(long(real(null)nan)inf)true or and"
            .chars()
            .collect();
    let mut state: u64 = 0x2545F4914F6CDD1D;
    let mut step = || {
        state ^= state << 13;
        state ^= state >> 7;
        state ^= state << 17;
        state
    };
    for _ in 0..3000 {
        let len = (step() % 24) as usize;
        let text: String =
            (0..len).map(|_| alphabet[(step() % alphabet.len() as u64) as usize]).collect();
        let tokens = lex(&text);
        let mut end = 0;
        for token in &tokens {
            assert!(end <= token.span.offset, "{:?}", text);
            assert!(token.span.len > 0, "{:?}", text);
            end = token.span.offset + token.span.len;
            assert!(text.is_char_boundary(token.span.offset), "{:?}", text);
            assert!(text.is_char_boundary(end), "{:?}", text);
        }
        assert!(end <= text.len(), "{:?}", text);
        let errors: Vec<LexerError> = tokens
            .iter()
            .filter(|token| token.value == Token::Error)
            .map(|token| LexerError { span: token.span })
            .collect();
        match tokenize(text.clone()) {
            Ok(all) => {
                assert!(errors.is_empty(), "{:?}", text);
                assert_eq!(all, tokens, "{:?}", text);
            }
            Err(found) => assert_eq!(found, errors, "{:?}", text),
        }
    }
}

#[test]
fn printed_hexadecimal_numbers_are_read_back() {
    for value in [0i32, 1, 9, 10, 15, 16, 255, 0xabcdef, 0x1234567, i32::MAX] {
        for text in [format!("int(0x{:x})", value), format!("int(0x{:X})", value)] {
            assert_eq!(
                lex(&text),
                vec![M::new(Token::IntLiteral(value), Span::new(0, text.len()))],
                "{}",
                text
            );
        }
    }
    for value in [0i64, 10, 0xdeadbeef, 0xfedcba987654321, i64::MAX] {
        for text in [
            format!("0x{:x}", value),
            format!("0x{:X}", value),
            format!("long(0x{:x})", value),
            format!("long(0x{:X})", value),
        ] {
            assert_eq!(
                lex(&text),
                vec![M::new(Token::LongLiteral(value), Span::new(0, text.len()))],
                "{}",
                text
            );
        }
    }
    assert_eq!(kinds("int(0xfF)"), vec![Token::IntLiteral(255)]);
    assert_eq!(kinds("int(0xFf)"), vec![Token::IntLiteral(255)]);
    assert_eq!(kinds("0xaBcD"), vec![Token::LongLiteral(0xabcd)]);
    assert_eq!(kinds("int(0x80000000)"), vec![Token::Error]);
    assert_eq!(kinds("int(0xFFFFFFFF)"), vec![Token::Error]);
    assert_eq!(kinds("long(0x8000000000000000)"), vec![Token::Error]);
}

#[test]
fn no_token_is_empty() {
    for source in ["a", "T | where a >= 10", "\"\" '' @\"\" ``````", "int(1) 0x1 1.5 -2"] {
        let tokens = tokenize(source.to_string()).unwrap();
        let mut start = None;
        for token in &tokens {
            assert!(token.span.len > 0, "{}", source);
            assert!(start < Some(token.span.offset), "{}", source);
            start = Some(token.span.offset);
        }
    }
}

#[test]
fn least_values_are_literals() {
    assert_eq!(kinds("-9223372036854775808"), vec![Token::LongLiteral(i64::MIN)]);
    assert_eq!(kinds("long(-9223372036854775808)"), vec![Token::LongLiteral(i64::MIN)]);
    assert_eq!(kinds("int(-2147483648)"), vec![Token::IntLiteral(i32::MIN)]);
    assert_eq!(kinds("-0"), vec![Token::LongLiteral(0)]);
    assert_eq!(kinds("int(-0)"), vec![Token::IntLiteral(0)]);
    assert_eq!(
        tokenize(String::from("-9223372036854775808")),
        Ok(vec![M::new(Token::LongLiteral(i64::MIN), Span::new(0, 20))])
    );
}

fn chars(text: &str) -> Vec<char> {
    text.chars().collect()
}

#[test]
fn decimal_literals_are_read_from_their_text() {
    for n in [0i32, 1, -1, 42, -42, 1000000, i32::MAX, i32::MIN, i32::MIN + 1] {
        assert_eq!(parse_int_dec_literal(&chars(&format!("int({})", n)), 4, 1), Some(n), "{}", n);
        assert_eq!(parse_int_dec_literal(&chars(&n.to_string()), 0, 0), Some(n), "{}", n);
    }
    for n in [0i64, 1, -1, 1 << 40, -(1 << 40), i64::MAX, i64::MIN, i64::MIN + 1] {
        assert_eq!(parse_long_dec_literal(&chars(&n.to_string()), 0, 0), Some(n), "{}", n);
        assert_eq!(
            parse_long_dec_literal(&chars(&format!("long({})", n)), 5, 1),
            Some(n),
            "{}",
            n
        );
    }
    assert_eq!(parse_int_dec_literal(&chars("int(2147483648)"), 4, 1), None);
    assert_eq!(parse_int_dec_literal(&chars("int(-2147483649)"), 4, 1), None);
    assert_eq!(parse_int_dec_literal(&chars("int(99999999999999999999999)"), 4, 1), None);
    assert_eq!(parse_long_dec_literal(&chars("9223372036854775808"), 0, 0), None);
    assert_eq!(parse_long_dec_literal(&chars("-9223372036854775809"), 0, 0), None);
    assert_eq!(parse_long_dec_literal(&chars("long(007)"), 5, 1), Some(7));
    assert_eq!(parse_long_dec_literal(&chars(""), 0, 0), None);
    assert_eq!(parse_long_dec_literal(&chars("-"), 0, 0), None);
    assert_eq!(parse_long_dec_literal(&chars("+5"), 0, 0), None);
    assert_eq!(parse_long_dec_literal(&chars("--5"), 0, 0), None);
    assert_eq!(parse_long_dec_literal(&chars("5a"), 0, 0), None);
    assert_eq!(parse_int_dec_literal(&chars("int()"), 4, 1), None);
}

#[test]
fn hexadecimal_literals_are_read_from_their_text() {
    for n in [0i32, 1, 10, 255, 0xabcdef, i32::MAX] {
        assert_eq!(parse_int_hex_literal(&chars(&format!("int(0x{:x})", n)), 4, 1), Some(n));
        assert_eq!(parse_int_hex_literal(&chars(&format!("int(0x{:X})", n)), 4, 1), Some(n));
    }
    for n in [0i64, 0xdeadbeef, i64::MAX] {
        assert_eq!(parse_long_hex_literal(&chars(&format!("0x{:x}", n)), 0, 0), Some(n));
        assert_eq!(parse_long_hex_literal(&chars(&format!("long(0x{:X})", n)), 5, 1), Some(n));
    }
    assert_eq!(parse_int_hex_literal(&chars("int(0xfF)"), 4, 1), Some(255));
    assert_eq!(parse_int_hex_literal(&chars("int(0x80000000)"), 4, 1), None);
    assert_eq!(parse_long_hex_literal(&chars("0x8000000000000000"), 0, 0), None);
    assert_eq!(parse_long_hex_literal(&chars("0x"), 0, 0), None);
    assert_eq!(parse_long_hex_literal(&chars("0xg"), 0, 0), None);
    assert_eq!(parse_long_hex_literal(&chars("1x1"), 0, 0), None);
    assert_eq!(parse_long_hex_literal(&chars("7"), 0, 0), None);
}

#[test]
fn strings_are_read_after_their_opening() {
    assert_eq!(parse_escaped_char('n'), Some(('\n', 1)));
    assert_eq!(parse_escaped_char('t'), Some(('\t', 1)));
    assert_eq!(parse_escaped_char('r'), Some(('\r', 1)));
    assert_eq!(parse_escaped_char('\\'), Some(('\\', 1)));
    assert_eq!(parse_escaped_char('"'), Some(('"', 1)));
    assert_eq!(parse_escaped_char('\''), Some(('\'', 1)));
    assert_eq!(parse_escaped_char('q'), None);
    assert_eq!(
        parse_string_literal(&chars("'a\\nb' c"), 1, '\''),
        (6, Some(String::from("a\nb")))
    );
    assert_eq!(
        parse_verbatim_string_literal(&chars("@'a\\nb' c"), 2, '\''),
        (7, Some(String::from("a\\nb")))
    );
    assert_eq!(parse_string_literal(&chars("'ab"), 1, '\''), (3, None));
    assert_eq!(
        parse_multiline_string_literal(&chars("```a`b``` c"), 3),
        (9, Some(String::from("a`b")))
    );
    assert_eq!(parse_multiline_string_literal(&chars("```a``"), 3), (6, None));
}

#[test]
fn number_tokens_cut_out_at_their_bytes_are_read_again() {
    let source = "'é§' 17 -4 0x2A int(-2147483648) long(9) 2.50 real(+inf) // ü\n-9223372036854775808";
    let tokens = tokenize(source.to_string()).unwrap();
    let mut numbers = 0;
    for token in tokens {
        let number = matches!(
            token.value,
            Token::IntLiteral(_) | Token::LongLiteral(_) | Token::RealLiteral(_)
        );
        if number {
            numbers += 1;
            let text = &source[token.span.offset..token.span.offset + token.span.len];
            assert_eq!(
                tokenize(text.to_string()),
                Ok(vec![M::new(token.value, Span::from((0, text.len())))])
            );
        }
    }
    assert_eq!(numbers, 8);
}
