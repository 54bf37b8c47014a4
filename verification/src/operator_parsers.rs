use crate::error::{ParseError, Rule};
use crate::grammar::{
    addition_rule, division_rule, multiplication_rule, operator_rule, parsed, subtraction_rule,
    symbol_rule,
};
use crate::primitives::{character, lemma_space_run_bound, spaces};
use crate::token::Token;
use vstd::prelude::*;

verus! {

/// Reads the character `c` between optional whitespace and answers `token`.
fn symbol<'a>(input: &'a str, c: char, rule: Rule, token: Token) -> (r: Result<
    (&'a str, Token),
    ParseError<'a>,
>)
    ensures
        parsed(r) == symbol_rule(input@, c, rule, token@),
        r matches Ok((rest, _)) ==> rest@.len() < input@.len(),
{
    let start = spaces(input);
    match character(c, start) {
        Some(after) => {
            let rest = spaces(after);
            proof {
                lemma_space_run_bound(input@);
                lemma_space_run_bound(after@);
            }
            Ok((rest, token))
        },
        None => Err(ParseError::SyntaxError { rule, remainder: start }),
    }
}

/// Reads `+`.
pub fn addition_operator<'a>(input: &'a str) -> (r: Result<(&'a str, Token), ParseError<'a>>)
    ensures
        parsed(r) == addition_rule(input@),
        r matches Ok((rest, _)) ==> rest@.len() < input@.len(),
{
    symbol(input, '+', Rule::AdditionOperator, Token::AdditionOperator)
}

/// Reads `-`.
pub fn subtraction_operator<'a>(input: &'a str) -> (r: Result<(&'a str, Token), ParseError<'a>>)
    ensures
        parsed(r) == subtraction_rule(input@),
        r matches Ok((rest, _)) ==> rest@.len() < input@.len(),
{
    symbol(input, '-', Rule::SubtractionOperator, Token::SubtractionOperator)
}

/// Reads `*`.
pub fn multiplication_operator<'a>(input: &'a str) -> (r: Result<
    (&'a str, Token),
    ParseError<'a>,
>)
    ensures
        parsed(r) == multiplication_rule(input@),
        r matches Ok((rest, _)) ==> rest@.len() < input@.len(),
{
    symbol(input, '*', Rule::MultiplicationOperator, Token::MultiplicationOperator)
}

/// Reads `/`.
pub fn division_operator<'a>(input: &'a str) -> (r: Result<(&'a str, Token), ParseError<'a>>)
    ensures
        parsed(r) == division_rule(input@),
        r matches Ok((rest, _)) ==> rest@.len() < input@.len(),
{
    symbol(input, '/', Rule::DivisionOperator, Token::DivisionOperator)
}

/// Reads one of the four operators, trying `+`, `-`, `*` and `/` in this
/// order; the failure is that of the last.
pub fn operator<'a>(input: &'a str) -> (r: Result<(&'a str, Token), ParseError<'a>>)
    ensures
        parsed(r) == operator_rule(input@),
        r matches Ok((rest, _)) ==> rest@.len() < input@.len(),
{
    match addition_operator(input) {
        Ok(found) => Ok(found),
        Err(_) => match subtraction_operator(input) {
            Ok(found) => Ok(found),
            Err(_) => match multiplication_operator(input) {
                Ok(found) => Ok(found),
                Err(_) => division_operator(input),
            },
        },
    }
}

} // verus!
