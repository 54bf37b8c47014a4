use crate::error::{Failure, ParseError};
use crate::factors_parsers::factor_parser;
use crate::grammar::{after, consuming, factor_rule, parsed, term_rule, term_tail};
use crate::operator_parsers::{division_operator, multiplication_operator};
use crate::token::{pair_trees, Token, Tree};
use vstd::prelude::*;

verus! {

/// Reads a term: a factor, then any number of `*` or `/` each with a factor.
pub fn term_parser<'a>(input: &'a str) -> (r: Result<(&'a str, Token), ParseError<'a>>)
    ensures
        parsed(r) == term_rule(input@),
        r matches Ok((rest, _)) ==> rest@.len() < input@.len(),
    decreases input@.len(), 3int,
{
    let (origin, left) = match factor_parser(input) {
        Ok(found) => found,
        Err(e) => {
            return Err(e);
        },
    };
    let mut rest = origin;
    let mut right: Vec<(Token, Token)> = Vec::new();
    assert(pair_trees(right@) =~= Seq::<(Tree, Tree)>::empty());
    loop
        invariant_except_break
            term_tail(origin@) == after(pair_trees(right@), term_tail(rest@)),
        invariant
            rest@.len() < input@.len(),
            consuming(factor_rule(input@), input@) == Ok::<(Seq<char>, Tree), Failure>(
                (origin@, left@),
            ),
        ensures
            term_tail(origin@) == Ok::<(Seq<char>, Seq<(Tree, Tree)>), Failure>(
                (rest@, pair_trees(right@)),
            ),
        decreases rest@.len(),
    {
        let found = match multiplication_operator(rest) {
            Ok(found) => Some(found),
            Err(_) => match division_operator(rest) {
                Ok(found) => Some(found),
                Err(_) => None,
            },
        };
        let (behind, operator) = match found {
            Some(found) => found,
            None => {
                assert(pair_trees(right@) + Seq::<(Tree, Tree)>::empty() =~= pair_trees(right@));
                break ;
            },
        };
        match factor_parser(behind) {
            Err(ParseError::LiteralConversionError { remainder }) => {
                return Err(ParseError::LiteralConversionError { remainder });
            },
            Err(ParseError::SyntaxError { .. }) => {
                assert(pair_trees(right@) + Seq::<(Tree, Tree)>::empty() =~= pair_trees(right@));
                break ;
            },
            Ok((next, operand)) => {
                proof {
                    let ghost pair = (operator@, operand@);
                    assert(pair_trees(right@.push((operator, operand))) =~= pair_trees(
                        right@,
                    ).push(pair));
                    match term_tail(next@) {
                        Ok((end, more)) => {
                            assert(pair_trees(right@) + (seq![pair] + more) =~= pair_trees(
                                right@,
                            ).push(pair) + more);
                        },
                        Err(_) => {},
                    }
                }
                right.push((operator, operand));
                rest = next;
            },
        }
    }
    Ok((rest, Token::Term { left: Box::new(left), right }))
}

} // verus!
