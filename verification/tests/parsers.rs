use lrvmism::error::{ParseError, Rule};
use lrvmism::expression_parsers::expression_parser;
use lrvmism::factors_parsers::{factor_parser, float64_parser, integer_parser};
use lrvmism::operand_parsers::integer;
use lrvmism::operator_parsers::{
    addition_operator, division_operator, multiplication_operator, operator,
    subtraction_operator,
};
use lrvmism::program_parsers::program_parser;
use lrvmism::term_parsers::term_parser;
use lrvmism::token::Token;

fn integer_token(value: i64) -> Token {
    Token::Integer { value }
}

fn factor(value: Token) -> Token {
    Token::Factor { value: Box::new(value) }
}

fn term(left: Token, right: Vec<(Token, Token)>) -> Token {
    Token::Term { left: Box::new(left), right }
}

fn expression(left: Token, right: Vec<(Token, Token)>) -> Token {
    Token::Expression { left: Box::new(left), right }
}

/// The float literal that `value` prints as.
fn float_token(value: f64) -> Token {
    let text = format!("{:?}", value.abs());
    let (whole, fraction) = text.split_once('.').unwrap();
    Token::Float {
        negative: value.is_sign_negative(),
        whole: whole.to_string(),
        fraction: fraction.to_string(),
    }
}

#[test]
fn factors_parsers_test_parse_integer() {
    let test_array = vec!["0", "-1", "1", "-64", "64"];
    for input in test_array {
        let expect = Token::Integer { value: input.parse::<i64>().unwrap() };

        let result = integer_parser(input);
        assert!(result.is_ok());

        let (_reminder, value) = result.unwrap();
        assert_eq!(expect, value);
        assert!(_reminder.is_empty());
    }
}

#[test]
fn test_float64_parser() {
    let input = "1.2";
    let result = float64_parser(input);
    assert_eq!(result.is_ok(), true);

    let input_arr = ["1.0", " -1.0 ", "323.8", "1.453"];
    let expect_arr = [1.0, -1.0, 323.8, 1.453];
    for (i, test_str) in input_arr.iter().enumerate() {
        let result = float64_parser(test_str);
        assert_eq!(result.is_ok(), true);

        let (_reminder, value) = result.unwrap();
        let expect = Token::Factor { value: Box::new(float_token(expect_arr[i])) };

        assert!(_reminder.is_empty());
        assert_eq!(expect, value);
    }
}

#[test]
fn test_factor() {
    let test_program = "(1+2)";
    let result = factor_parser(test_program);
    assert_eq!(result.is_ok(), true);
    let (_, tree) = result.unwrap();
    println!("{:#?}", tree);
}

#[test]
fn test_parse_floats() {
    let test_floats = vec!["100.4", "1.02", "-1.02"];
    for o in test_floats {
        let _parsed_o = o.parse::<f64>().unwrap();
        let result = float64_parser(o);
        assert_eq!(result.is_ok(), true);
    }
}

#[test]
fn test_parse_integer_2() {
    let test_integers = vec!["0", "-1", "1"];
    for o in test_integers {
        let _parsed_o = o.parse::<i64>().unwrap();
        let result = integer_parser(o);
        assert_eq!(result.is_ok(), true);
    }
}

#[test]
fn operand_parsers_test_parse_integer() {
    let test_array = vec!["0", "-1", "1", "-64", "64"];
    for input in test_array {
        let expect = Token::Integer { value: input.parse::<i64>().unwrap() };

        let result = integer(input);
        assert!(result.is_ok());

        let (_reminder, value) = result.unwrap();
        assert_eq!(expect, value);
        assert!(_reminder.is_empty());
    }
}

#[test]
fn test_add_operator() {
    let test_arr = vec!["  +   ", "  - ", " * ", " / "];
    for (i, input) in test_arr.iter().enumerate() {
        let result = operator(input);
        assert_eq!(result.is_ok(), true);

        let (r, t) = result.unwrap();
        assert!(r.is_empty());
        assert_eq!(i, t.into());
    }
}

#[test]
fn test_parse_program() {
    let test_program = "1+2";

    let result = program_parser(test_program);
    assert_eq!(result.is_ok(), true);

    let (r, program) = result.unwrap();
    let expressions = vec![Token::Expression {
        left: Box::new(Token::Term {
            left: Box::new(Token::Factor { value: Box::new(Token::Integer { value: 1 }) }),
            right: vec![],
        }),
        right: vec![(
            Token::AdditionOperator,
            Token::Term {
                left: Box::new(Token::Factor { value: Box::new(Token::Integer { value: 2 }) }),
                right: vec![],
            },
        )],
    }];
    assert!(r.is_empty());
    assert_eq!(Token::Program { expressions }, program);
}

#[test]
fn test_parse_program_2() {
    let test_program = "3*4";

    let result = program_parser(test_program);
    assert_eq!(result.is_ok(), true);

    let (r, program) = result.unwrap();
    let expressions = vec![Token::Expression {
        left: Box::new(Token::Term {
            left: Box::new(Token::Factor { value: Box::new(Token::Integer { value: 3 }) }),
            right: vec![(
                Token::MultiplicationOperator,
                Token::Factor { value: Box::new(Token::Integer { value: 4 }) },
            )],
        }),
        right: vec![],
    }];
    assert!(r.is_empty());
    assert_eq!(Token::Program { expressions }, program);
}

#[test]
fn test_parse_term() {
    let result = term_parser("3*4");
    assert_eq!(result.is_ok(), true);
}

#[test]
fn test_parse_nested_term() {
    let result = term_parser("(3*4)*2");
    assert_eq!(result.is_ok(), true);
}

#[test]
fn test_parse_really_nested_term() {
    let result = term_parser("((3*4)*2)");
    assert_eq!(result.is_ok(), true);
}

#[test]
fn nested_term_has_the_parenthesis_as_a_factor() {
    let (rest, tree) = term_parser("(3*4)*2").unwrap();
    assert_eq!(rest, "");
    let inner = expression(
        term(factor(integer_token(3)), vec![(Token::MultiplicationOperator, factor(integer_token(4)))]),
        vec![],
    );
    assert_eq!(
        tree,
        term(factor(inner), vec![(Token::MultiplicationOperator, factor(integer_token(2)))])
    );
}

#[test]
fn parenthesis_then_subtraction_parses_as_one_expression() {
    let (rest, tree) = program_parser("(4*3)-1").unwrap();
    assert_eq!(rest, "");
    let inner = expression(
        term(factor(integer_token(4)), vec![(Token::MultiplicationOperator, factor(integer_token(3)))]),
        vec![],
    );
    let whole = expression(
        term(factor(inner), vec![]),
        vec![(Token::SubtractionOperator, term(factor(integer_token(1)), vec![]))],
    );
    assert_eq!(tree, Token::Program { expressions: vec![whole] });
}

#[test]
fn empty_input_is_no_program() {
    assert_eq!(
        program_parser(""),
        Err(ParseError::SyntaxError { rule: Rule::Factor, remainder: "" })
    );
    assert_eq!(
        program_parser("  \n"),
        Err(ParseError::SyntaxError { rule: Rule::Factor, remainder: "" })
    );
}

#[test]
fn single_literal_is_a_program() {
    let (rest, tree) = program_parser("5").unwrap();
    assert_eq!(rest, "");
    assert_eq!(
        tree,
        Token::Program { expressions: vec![expression(term(factor(integer_token(5)), vec![]), vec![])] }
    );
}

#[test]
fn parsing_twice_gives_the_same_tree() {
    let text = " 12 * (3 - 4.5) / -7 + 1\n2";
    assert_eq!(program_parser(text), program_parser(text));
    assert!(program_parser(text).is_ok());
}

#[test]
fn several_expressions_make_one_program() {
    let (rest, tree) = program_parser("1+2 3\n(4)").unwrap();
    assert_eq!(rest, "");
    match tree {
        Token::Program { expressions } => {
            assert_eq!(expressions.len(), 3);
            assert_eq!(expressions[1], expression(term(factor(integer_token(3)), vec![]), vec![]));
        }
        other => panic!("no program: {:?}", other),
    }
}

#[test]
fn largest_and_smallest_literals() {
    assert_eq!(integer_parser("9223372036854775807"), Ok(("", integer_token(i64::MAX))));
    assert_eq!(integer_parser("-9223372036854775808"), Ok(("", integer_token(i64::MIN))));
    assert_eq!(integer(" -9223372036854775808 "), Ok(("", integer_token(i64::MIN))));
    assert_eq!(integer_parser("-9223372036854775807"), Ok(("", integer_token(-i64::MAX))));
    assert_eq!(integer_parser("-0009223372036854775808"), Ok(("", integer_token(i64::MIN))));
    assert_eq!(integer_parser("0009"), Ok(("", integer_token(9))));
    assert_eq!(integer_parser("-0"), Ok(("", integer_token(0))));
    assert_eq!(
        factor_parser("-9223372036854775808"),
        Ok(("", factor(integer_token(i64::MIN))))
    );
}

#[test]
fn literal_below_the_minimum_is_a_conversion_error() {
    assert_eq!(
        integer_parser("-9223372036854775809"),
        Err(ParseError::LiteralConversionError { remainder: "-9223372036854775809" })
    );
    assert_eq!(
        integer_parser(" 9223372036854775808 "),
        Err(ParseError::LiteralConversionError { remainder: "9223372036854775808 " })
    );
    assert_eq!(
        integer_parser("-18446744073709551616"),
        Err(ParseError::LiteralConversionError { remainder: "-18446744073709551616" })
    );
    assert_eq!(
        integer_parser("18446744073709551615"),
        Err(ParseError::LiteralConversionError { remainder: "18446744073709551615" })
    );
    assert_eq!(
        integer("123456789012345678901234567890"),
        Err(ParseError::LiteralConversionError { remainder: "123456789012345678901234567890" })
    );
    assert_eq!(
        program_parser("-9223372036854775809"),
        Err(ParseError::LiteralConversionError { remainder: "-9223372036854775809" })
    );
}

#[test]
fn conversion_error_is_not_swallowed_by_a_repetition() {
    assert_eq!(
        program_parser("1 + 99999999999999999999"),
        Err(ParseError::LiteralConversionError { remainder: "99999999999999999999" })
    );
    assert_eq!(
        program_parser("1 2 * 99999999999999999999"),
        Err(ParseError::LiteralConversionError { remainder: "99999999999999999999" })
    );
    assert_eq!(
        term_parser("(99999999999999999999)"),
        Err(ParseError::LiteralConversionError { remainder: "99999999999999999999)" })
    );
}

#[test]
fn digits_with_a_fraction_are_a_float_however_long() {
    let (rest, tree) = factor_parser("99999999999999999999.5").unwrap();
    assert_eq!(rest, "");
    assert_eq!(
        tree,
        factor(Token::Float {
            negative: false,
            whole: "99999999999999999999".to_string(),
            fraction: "5".to_string(),
        })
    );
}

#[test]
fn factor_reads_a_float_where_a_fraction_follows() {
    assert_eq!(factor_parser(" 1.5 "), Ok(("", factor(float_token(1.5)))));
    assert_eq!(factor_parser("-0.25+1"), Ok(("+1", factor(float_token(-0.25)))));
    assert_eq!(factor_parser("7"), Ok(("", factor(integer_token(7)))));
    assert_eq!(factor_parser("7."), Ok((".", factor(integer_token(7)))));
    assert_eq!(factor_parser("7.x"), Ok((".x", factor(integer_token(7)))));
}

#[test]
fn integer_parser_stops_at_the_point() {
    assert_eq!(integer_parser("1.5"), Ok((".5", integer_token(1))));
    assert_eq!(integer_parser("12abc"), Ok(("abc", integer_token(12))));
    assert_eq!(integer_parser(" \t\r\n-3 \n x"), Ok(("x", integer_token(-3))));
}

#[test]
fn syntax_errors_name_the_rule_and_the_remainder() {
    assert_eq!(
        integer_parser("  abc"),
        Err(ParseError::SyntaxError { rule: Rule::Integer, remainder: "abc" })
    );
    assert_eq!(
        integer_parser(" -x"),
        Err(ParseError::SyntaxError { rule: Rule::Integer, remainder: "x" })
    );
    assert_eq!(
        integer_parser("- 1"),
        Err(ParseError::SyntaxError { rule: Rule::Integer, remainder: " 1" })
    );
    assert_eq!(
        float64_parser("15"),
        Err(ParseError::SyntaxError { rule: Rule::Float, remainder: "" })
    );
    assert_eq!(
        float64_parser("15.x"),
        Err(ParseError::SyntaxError { rule: Rule::Float, remainder: "x" })
    );
    assert_eq!(
        float64_parser(".5"),
        Err(ParseError::SyntaxError { rule: Rule::Float, remainder: ".5" })
    );
    assert_eq!(
        factor_parser(" +1"),
        Err(ParseError::SyntaxError { rule: Rule::Factor, remainder: "+1" })
    );
    assert_eq!(
        factor_parser("(1+2"),
        Err(ParseError::SyntaxError { rule: Rule::Factor, remainder: "" })
    );
    assert_eq!(
        factor_parser("(1+2 ]"),
        Err(ParseError::SyntaxError { rule: Rule::Factor, remainder: "]" })
    );
    assert_eq!(
        expression_parser("((1) + ("),
        Err(ParseError::SyntaxError { rule: Rule::Factor, remainder: "+ (" })
    );
    assert_eq!(
        factor_parser("(é)"),
        Err(ParseError::SyntaxError { rule: Rule::Factor, remainder: "é)" })
    );
}

#[test]
fn operators_fail_with_their_own_rule() {
    assert_eq!(
        addition_operator(" -"),
        Err(ParseError::SyntaxError { rule: Rule::AdditionOperator, remainder: "-" })
    );
    assert_eq!(
        subtraction_operator("+"),
        Err(ParseError::SyntaxError { rule: Rule::SubtractionOperator, remainder: "+" })
    );
    assert_eq!(
        multiplication_operator(""),
        Err(ParseError::SyntaxError { rule: Rule::MultiplicationOperator, remainder: "" })
    );
    assert_eq!(
        division_operator(" x "),
        Err(ParseError::SyntaxError { rule: Rule::DivisionOperator, remainder: "x " })
    );
    assert_eq!(
        operator(" 1"),
        Err(ParseError::SyntaxError { rule: Rule::DivisionOperator, remainder: "1" })
    );
    assert_eq!(addition_operator("+1"), Ok(("1", Token::AdditionOperator)));
    assert_eq!(division_operator(" / 2"), Ok(("2", Token::DivisionOperator)));
}

#[test]
fn repetition_ends_before_a_pair_that_does_not_match() {
    assert_eq!(
        expression_parser("1+"),
        Ok(("+", expression(term(factor(integer_token(1)), vec![]), vec![])))
    );
    assert_eq!(
        term_parser("2 * 3 / x"),
        Ok((
            "/ x",
            term(factor(integer_token(2)), vec![(Token::MultiplicationOperator, factor(integer_token(3)))])
        ))
    );
    assert_eq!(term_parser("2 + 3"), Ok(("+ 3", term(factor(integer_token(2)), vec![]))));
}

#[test]
fn operators_associate_in_source_order() {
    let (rest, tree) = expression_parser("1 - 2 + 3 * 4 / 5").unwrap();
    assert_eq!(rest, "");
    assert_eq!(
        tree,
        expression(
            term(factor(integer_token(1)), vec![]),
            vec![
                (Token::SubtractionOperator, term(factor(integer_token(2)), vec![])),
                (
                    Token::AdditionOperator,
                    term(
                        factor(integer_token(3)),
                        vec![
                            (Token::MultiplicationOperator, factor(integer_token(4))),
                            (Token::DivisionOperator, factor(integer_token(5))),
                        ]
                    )
                ),
            ]
        )
    );
}

#[test]
fn kinds_are_numbered() {
    for code in 0..10usize {
        let token = Token::from(code);
        let back: usize = token.into();
        assert_eq!(back, code);
    }
    assert_eq!(
        Token::from(5),
        Token::Float { negative: false, whole: "0".to_string(), fraction: "0".to_string() }
    );
    assert_eq!(
        Token::from(7),
        Token::Term {
            left: Box::new(Token::AdditionOperator),
            right: vec![(integer_token(0), integer_token(0))],
        }
    );
    assert_eq!(Token::from(9), Token::Program { expressions: vec![] });
}

#[test]
fn whitespace_around_a_text_changes_nothing() {
    let (rest, plain) = program_parser("1+2*(3-4)").unwrap();
    assert_eq!(rest, "");
    let (rest, spaced) = program_parser(" \t1 +\r\n2 * ( 3 - 4 ) \n").unwrap();
    assert_eq!(rest, "");
    assert_eq!(plain, spaced);
}

#[test]
fn rules_have_names() {
    assert_eq!(Rule::Program.name(), "program");
    assert_eq!(Rule::Expression.name(), "expression");
    assert_eq!(Rule::Term.name(), "term");
    assert_eq!(Rule::Factor.name(), "factor");
    assert_eq!(Rule::Integer.name(), "integer");
    assert_eq!(Rule::Float.name(), "float");
    assert_eq!(Rule::AdditionOperator.name(), "addition operator");
    assert_eq!(Rule::SubtractionOperator.name(), "subtraction operator");
    assert_eq!(Rule::MultiplicationOperator.name(), "multiplication operator");
    assert_eq!(Rule::DivisionOperator.name(), "division operator");
}
