use crate::decimal::to_integer;
use crate::error::{ParseError, Rule};
use crate::expression_parsers::expression_parser;
use crate::grammar::{factor_rule, float_literal, float_rule, integer_rule, literal_rule, parsed};
use crate::primitives::{
    character, digits, lemma_digit_run_bound, lemma_space_run_bound, spaces,
};
use crate::token::Token;
use vstd::prelude::*;
use vstd::string::StringExecFns;

verus! {

/// Reads an integer literal: an optional `-` and digits, between optional
/// whitespace. The literal is refused where the integer it denotes is below
/// `i64::MIN` or beyond `i64::MAX`.
pub fn integer_parser<'a>(input: &'a str) -> (r: Result<(&'a str, Token), ParseError<'a>>)
    ensures
        parsed(r) == integer_rule(input@),
        r matches Ok((rest, _)) ==> rest@.len() < input@.len(),
{
    let start = spaces(input);
    let (negative, body) = match character('-', start) {
        Some(after) => (true, after),
        None => (false, start),
    };
    match digits(body) {
        None => Err(ParseError::SyntaxError { rule: Rule::Integer, remainder: body }),
        Some((run, after)) => {
            proof {
                lemma_space_run_bound(input@);
                lemma_space_run_bound(after@);
                lemma_digit_run_bound(body@);
            }
            match to_integer(negative, run) {
                None => Err(ParseError::LiteralConversionError { remainder: start }),
                Some(value) => Ok((spaces(after), Token::Integer { value })),
            }
        },
    }
}

/// Reads a float literal and answers it as it stands, outside any factor.
fn float_token<'a>(input: &'a str) -> (r: Result<(&'a str, Token), ParseError<'a>>)
    ensures
        parsed(r) == float_literal(input@),
        r matches Ok((rest, _)) ==> rest@.len() < input@.len(),
{
    let start = spaces(input);
    let (negative, body) = match character('-', start) {
        Some(after) => (true, after),
        None => (false, start),
    };
    let (whole, point) = match digits(body) {
        Some(found) => found,
        None => {
            return Err(ParseError::SyntaxError { rule: Rule::Float, remainder: body });
        },
    };
    let decimals = match character('.', point) {
        Some(after) => after,
        None => {
            return Err(ParseError::SyntaxError { rule: Rule::Float, remainder: point });
        },
    };
    let (fraction, after) = match digits(decimals) {
        Some(found) => found,
        None => {
            return Err(ParseError::SyntaxError { rule: Rule::Float, remainder: decimals });
        },
    };
    proof {
        lemma_space_run_bound(input@);
        lemma_space_run_bound(after@);
        lemma_digit_run_bound(body@);
        lemma_digit_run_bound(decimals@);
    }
    Ok(
        (
            spaces(after),
            Token::Float {
                negative,
                whole: String::from_str(whole),
                fraction: String::from_str(fraction),
            },
        ),
    )
}

/// Reads a float literal: an optional `-`, digits, a `.` and digits, between
/// optional whitespace. The literal is answered inside a factor.
pub fn float64_parser<'a>(input: &'a str) -> (r: Result<(&'a str, Token), ParseError<'a>>)
    ensures
        parsed(r) == float_rule(input@),
        r matches Ok((rest, _)) ==> rest@.len() < input@.len(),
{
    match float_token(input) {
        Ok((rest, value)) => Ok((rest, Token::Factor { value: Box::new(value) })),
        Err(e) => Err(e),
    }
}

/// Reads a literal: a float where one stands, an integer otherwise.
fn literal<'a>(input: &'a str) -> (r: Result<(&'a str, Token), ParseError<'a>>)
    ensures
        parsed(r) == literal_rule(input@),
        r matches Ok((rest, _)) ==> rest@.len() < input@.len(),
{
    match float_token(input) {
        Ok(found) => Ok(found),
        Err(_) => integer_parser(input),
    }
}

/// Reads a factor: a literal, or an expression between `(` and `)`.
pub fn factor_parser<'a>(input: &'a str) -> (r: Result<(&'a str, Token), ParseError<'a>>)
    ensures
        parsed(r) == factor_rule(input@),
        r matches Ok((rest, _)) ==> rest@.len() < input@.len(),
    decreases input@.len(), 1int,
{
    match literal(input) {
        Ok((rest, value)) => Ok((rest, Token::Factor { value: Box::new(value) })),
        Err(ParseError::LiteralConversionError { remainder }) => Err(
            ParseError::LiteralConversionError { remainder },
        ),
        Err(ParseError::SyntaxError { .. }) => {
            let start = spaces(input);
            proof {
                lemma_space_run_bound(input@);
            }
            match character('(', start) {
                None => Err(ParseError::SyntaxError { rule: Rule::Factor, remainder: start }),
                Some(inner) => match expression_parser(inner) {
                    Err(e) => Err(e),
                    Ok((rest, expression)) => match character(')', rest) {
                        None => Err(
                            ParseError::SyntaxError { rule: Rule::Factor, remainder: rest },
                        ),
                        Some(after) => {
                            proof {
                                lemma_space_run_bound(after@);
                            }
                            Ok((spaces(after), Token::Factor { value: Box::new(expression) }))
                        },
                    },
                },
            }
        },
    }
}

} // verus!
