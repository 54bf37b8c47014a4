use crate::decimal::{all_digits, signed_value};
use crate::error::{Failure, ParseError, Rule};
use crate::primitives::{
    digit_run, is_digit, is_space, lemma_digit_run_bound, lemma_skip_space_trims,
    lemma_space_run_bound, skip_space, space_run, starts_with,
};
use crate::token::{Token, Tree};
use vstd::prelude::*;

verus! {

/// What a rule makes of a text: the tree it read and the text that is left,
/// or the failure.
pub type Parse = Result<(Seq<char>, Tree), Failure>;

/// What a repetition makes of a text: the trees it read and the text that is
/// left, or the failure.
pub type ParseMany<T> = Result<(Seq<char>, Seq<T>), Failure>;

/// What a parser returned, over sequences of characters and trees.
pub open spec fn parsed<'a>(r: Result<(&'a str, Token), ParseError<'a>>) -> Parse {
    match r {
        Ok((rest, token)) => Ok((rest@, token@)),
        Err(e) => Err(e@),
    }
}

/// `p` itself where it is a failure or leaves less than `s`. Every rule below
/// leaves less than it was given (`lemma_rules_consume`), so this changes no
/// parse of theirs: it stands where a rule reaches itself again, and shows
/// that the recursion ends.
pub open spec fn consuming<T>(p: Result<(Seq<char>, T), Failure>, s: Seq<char>) -> Result<
    (Seq<char>, T),
    Failure,
> {
    match p {
        Ok((rest, _)) => if rest.len() < s.len() {
            p
        } else {
            Err(Failure::SyntaxError { rule: Rule::Program, remainder: s })
        },
        Err(_) => p,
    }
}

/// What a repetition makes of a text where the trees `before` were read ahead
/// of it.
pub open spec fn after<T>(before: Seq<T>, p: ParseMany<T>) -> ParseMany<T> {
    match p {
        Ok((rest, more)) => Ok((rest, before + more)),
        Err(e) => Err(e),
    }
}

/// Whitespace, the character `c`, whitespace: the tree is `tree`.
pub open spec fn symbol_rule(s: Seq<char>, c: char, rule: Rule, tree: Tree) -> Parse {
    let start = skip_space(s);
    if starts_with(start, c) {
        Ok((skip_space(start.skip(1)), tree))
    } else {
        Err(Failure::SyntaxError { rule, remainder: start })
    }
}

pub open spec fn addition_rule(s: Seq<char>) -> Parse {
    symbol_rule(s, '+', Rule::AdditionOperator, Tree::AdditionOperator)
}

pub open spec fn subtraction_rule(s: Seq<char>) -> Parse {
    symbol_rule(s, '-', Rule::SubtractionOperator, Tree::SubtractionOperator)
}

pub open spec fn multiplication_rule(s: Seq<char>) -> Parse {
    symbol_rule(s, '*', Rule::MultiplicationOperator, Tree::MultiplicationOperator)
}

pub open spec fn division_rule(s: Seq<char>) -> Parse {
    symbol_rule(s, '/', Rule::DivisionOperator, Tree::DivisionOperator)
}

/// The first of `first` and `second` that matches; the failure of `second`
/// where neither does.
pub open spec fn or_else(first: Parse, second: Parse) -> Parse {
    if first is Ok {
        first
    } else {
        second
    }
}

/// `+` or `-`.
pub open spec fn additive_rule(s: Seq<char>) -> Parse {
    or_else(addition_rule(s), subtraction_rule(s))
}

/// `*` or `/`.
pub open spec fn multiplicative_rule(s: Seq<char>) -> Parse {
    or_else(multiplication_rule(s), division_rule(s))
}

/// Any of the four operators, tried in the order `+ - * /`.
pub open spec fn operator_rule(s: Seq<char>) -> Parse {
    or_else(additive_rule(s), multiplicative_rule(s))
}

/// `s` without the minus sign that it may begin with.
pub open spec fn after_sign(s: Seq<char>) -> Seq<char> {
    if starts_with(s, '-') {
        s.skip(1)
    } else {
        s
    }
}

/// Whitespace, an optional `-`, one or more digits, whitespace. The tree is
/// the integer that the sign and the digits denote, which must be neither
/// below `i64::MIN` nor beyond `i64::MAX`.
pub open spec fn integer_rule(s: Seq<char>) -> Parse {
    let start = skip_space(s);
    let body = after_sign(start);
    let n = digit_run(body) as int;
    let value = signed_value(starts_with(start, '-'), body.take(n));
    if n == 0 {
        Err(Failure::SyntaxError { rule: Rule::Integer, remainder: body })
    } else if value < i64::MIN || value > i64::MAX {
        Err(Failure::LiteralConversionError { remainder: start })
    } else {
        Ok((skip_space(body.skip(n)), Tree::Integer { value: value as i64 }))
    }
}

/// Whitespace, an optional `-`, one or more digits, a `.`, one or more digits,
/// whitespace. The tree is the literal as it is written.
pub open spec fn float_literal(s: Seq<char>) -> Parse {
    let start = skip_space(s);
    let body = after_sign(start);
    let n = digit_run(body) as int;
    let point = body.skip(n);
    let m = digit_run(point.skip(1)) as int;
    if n == 0 {
        Err(Failure::SyntaxError { rule: Rule::Float, remainder: body })
    } else if !starts_with(point, '.') {
        Err(Failure::SyntaxError { rule: Rule::Float, remainder: point })
    } else if m == 0 {
        Err(Failure::SyntaxError { rule: Rule::Float, remainder: point.skip(1) })
    } else {
        Ok(
            (
                skip_space(point.skip(1).skip(m)),
                Tree::Float {
                    negative: starts_with(start, '-'),
                    whole: body.take(n),
                    fraction: point.skip(1).take(m),
                },
            ),
        )
    }
}

/// `p` with its tree inside a `Factor`.
pub open spec fn as_factor(p: Parse) -> Parse {
    match p {
        Ok((rest, value)) => Ok((rest, Tree::Factor { value: Box::new(value) })),
        Err(e) => Err(e),
    }
}

/// A float literal inside a `Factor`.
pub open spec fn float_rule(s: Seq<char>) -> Parse {
    as_factor(float_literal(s))
}

/// A literal: a float where the digits are followed by `.` and more digits,
/// an integer otherwise.
pub open spec fn literal_rule(s: Seq<char>) -> Parse {
    or_else(float_literal(s), integer_rule(s))
}

/// A literal, or an expression between `(` and `)`, inside a `Factor`. A
/// integer literal out of range fails the rule at once; where no
/// literal stands, the rule goes on to the parenthesis.
pub open spec fn factor_rule(s: Seq<char>) -> Parse
    decreases s.len(), 1int,
{
    match literal_rule(s) {
        Ok((rest, value)) => Ok((rest, Tree::Factor { value: Box::new(value) })),
        Err(Failure::LiteralConversionError { remainder }) => Err(
            Failure::LiteralConversionError { remainder },
        ),
        Err(Failure::SyntaxError { .. }) => {
            let start = skip_space(s);
            if starts_with(start, '(') && start.skip(1).len() < s.len() {
                match expression_rule(start.skip(1)) {
                    Ok((rest, inner)) => if starts_with(rest, ')') {
                        Ok((skip_space(rest.skip(1)), Tree::Factor { value: Box::new(inner) }))
                    } else {
                        Err(Failure::SyntaxError { rule: Rule::Factor, remainder: rest })
                    },
                    Err(e) => Err(e),
                }
            } else {
                Err(Failure::SyntaxError { rule: Rule::Factor, remainder: start })
            }
        },
    }
}

/// Zero or more pairs of `*` or `/` and a factor. The repetition ends before
/// the first pair that does not match; an integer literal out of range fails it.
pub open spec fn term_tail(s: Seq<char>) -> ParseMany<(Tree, Tree)>
    decreases s.len(), 2int,
{
    match consuming(multiplicative_rule(s), s) {
        Err(_) => Ok((s, Seq::empty())),
        Ok((after, operator)) => match consuming(factor_rule(after), after) {
            Err(Failure::LiteralConversionError { remainder }) => Err(
                Failure::LiteralConversionError { remainder },
            ),
            Err(Failure::SyntaxError { .. }) => Ok((s, Seq::empty())),
            Ok((rest, operand)) => match term_tail(rest) {
                Ok((end, more)) => Ok((end, seq![(operator, operand)] + more)),
                Err(e) => Err(e),
            },
        },
    }
}

/// A factor, then zero or more pairs of `*` or `/` and a factor.
pub open spec fn term_rule(s: Seq<char>) -> Parse
    decreases s.len(), 3int,
{
    match consuming(factor_rule(s), s) {
        Ok((rest, left)) => match term_tail(rest) {
            Ok((end, right)) => Ok((end, Tree::Term { left: Box::new(left), right })),
            Err(e) => Err(e),
        },
        Err(e) => Err(e),
    }
}

/// Zero or more pairs of `+` or `-` and a term. The repetition ends before
/// the first pair that does not match; an integer literal out of range fails it.
pub open spec fn expression_tail(s: Seq<char>) -> ParseMany<(Tree, Tree)>
    decreases s.len(), 4int,
{
    match consuming(additive_rule(s), s) {
        Err(_) => Ok((s, Seq::empty())),
        Ok((after, operator)) => match consuming(term_rule(after), after) {
            Err(Failure::LiteralConversionError { remainder }) => Err(
                Failure::LiteralConversionError { remainder },
            ),
            Err(Failure::SyntaxError { .. }) => Ok((s, Seq::empty())),
            Ok((rest, operand)) => match expression_tail(rest) {
                Ok((end, more)) => Ok((end, seq![(operator, operand)] + more)),
                Err(e) => Err(e),
            },
        },
    }
}

/// A term, then zero or more pairs of `+` or `-` and a term.
pub open spec fn expression_rule(s: Seq<char>) -> Parse
    decreases s.len(), 5int,
{
    match consuming(term_rule(s), s) {
        Ok((rest, left)) => match expression_tail(rest) {
            Ok((end, right)) => Ok((end, Tree::Expression { left: Box::new(left), right })),
            Err(e) => Err(e),
        },
        Err(e) => Err(e),
    }
}

/// Zero or more expressions. The repetition ends before the first text that
/// is no expression; an integer literal out of range fails it.
pub open spec fn program_tail(s: Seq<char>) -> ParseMany<Tree>
    decreases s.len(),
{
    match consuming(expression_rule(s), s) {
        Err(Failure::LiteralConversionError { remainder }) => Err(
            Failure::LiteralConversionError { remainder },
        ),
        Err(Failure::SyntaxError { .. }) => Ok((s, Seq::empty())),
        Ok((rest, expression)) => match program_tail(rest) {
            Ok((end, more)) => Ok((end, seq![expression] + more)),
            Err(e) => Err(e),
        },
    }
}

/// One or more expressions.
pub open spec fn program_rule(s: Seq<char>) -> Parse {
    match expression_rule(s) {
        Ok((rest, first)) => match program_tail(rest) {
            Ok((end, more)) => Ok((end, Tree::Program { expressions: seq![first] + more })),
            Err(e) => Err(e),
        },
        Err(e) => Err(e),
    }
}

/// Whether `rest` is what is left of `s` behind some characters at its
/// start.
pub open spec fn is_suffix(rest: Seq<char>, s: Seq<char>) -> bool {
    rest.len() <= s.len() && rest == s.skip(s.len() - rest.len())
}

/// The text at which a failure arose.
pub open spec fn remainder(failure: Failure) -> Seq<char> {
    match failure {
        Failure::SyntaxError { remainder, .. } => remainder,
        Failure::LiteralConversionError { remainder } => remainder,
    }
}

/// Whether `p` can be what a rule made of `s`: a parse has consumed at least
/// one character and leaves the rest of `s`, and a failure arose somewhere
/// in `s`.
pub open spec fn advances<T>(p: Result<(Seq<char>, T), Failure>, s: Seq<char>) -> bool {
    match p {
        Ok((rest, _)) => rest.len() < s.len() && is_suffix(rest, s),
        Err(e) => is_suffix(remainder(e), s),
    }
}

/// Whether `p` can be what a repetition made of `s`: as `advances`, but a
/// repetition may consume nothing.
pub open spec fn proceeds<T>(p: ParseMany<T>, s: Seq<char>) -> bool {
    match p {
        Ok((rest, _)) => is_suffix(rest, s),
        Err(e) => is_suffix(remainder(e), s),
    }
}

/// Whether every pair holds `*` or `/` and a well-formed factor.
pub open spec fn multiplicative_pairs(pairs: Seq<(Tree, Tree)>) -> bool {
    forall|i: int|
        0 <= i < pairs.len() ==> {
            &&& (#[trigger] pairs[i]).0 is MultiplicationOperator || pairs[i].0 is DivisionOperator
            &&& pairs[i].1.is_factor()
        }
}

/// Whether every pair holds `+` or `-` and a well-formed term.
pub open spec fn additive_pairs(pairs: Seq<(Tree, Tree)>) -> bool {
    forall|i: int|
        0 <= i < pairs.len() ==> {
            &&& (#[trigger] pairs[i]).0 is AdditionOperator || pairs[i].0 is SubtractionOperator
            &&& pairs[i].1.is_term()
        }
}

/// What is left behind a suffix of a text is a suffix of the text.
pub proof fn lemma_suffix_of_suffix(a: Seq<char>, b: Seq<char>, c: Seq<char>)
    requires
        is_suffix(a, b),
        is_suffix(b, c),
    ensures
        is_suffix(a, c),
{
    assert(a =~= c.skip(c.len() - a.len()));
}

/// Dropping characters at the start leaves a suffix.
pub proof fn lemma_skip_is_suffix(s: Seq<char>, n: int)
    requires
        0 <= n <= s.len(),
    ensures
        is_suffix(s.skip(n), s),
{
}

/// Dropping the whitespace at the start leaves a suffix.
pub proof fn lemma_skip_space_is_suffix(s: Seq<char>)
    ensures
        is_suffix(skip_space(s), s),
{
    lemma_space_run_bound(s);
}

/// An operator rule consumes its character, and fails at the first
/// character that is no whitespace.
pub proof fn lemma_symbol_advances(s: Seq<char>, c: char, rule: Rule, tree: Tree)
    ensures
        advances(symbol_rule(s, c, rule, tree), s),
{
    let start = skip_space(s);
    lemma_skip_space_is_suffix(s);
    if starts_with(start, c) {
        lemma_skip_is_suffix(start, 1);
        lemma_skip_space_is_suffix(start.skip(1));
        lemma_suffix_of_suffix(start.skip(1), start, s);
        lemma_suffix_of_suffix(skip_space(start.skip(1)), start.skip(1), s);
    }
}

/// Each of the operator rules advances.
pub proof fn lemma_operators_advance(s: Seq<char>)
    ensures
        advances(addition_rule(s), s),
        advances(subtraction_rule(s), s),
        advances(multiplication_rule(s), s),
        advances(division_rule(s), s),
        advances(additive_rule(s), s),
        advances(multiplicative_rule(s), s),
        advances(operator_rule(s), s),
        additive_rule(s) matches Ok((_, tree)) ==> tree is AdditionOperator
            || tree is SubtractionOperator,
        multiplicative_rule(s) matches Ok((_, tree)) ==> tree is MultiplicationOperator
            || tree is DivisionOperator,
{
    lemma_symbol_advances(s, '+', Rule::AdditionOperator, Tree::AdditionOperator);
    lemma_symbol_advances(s, '-', Rule::SubtractionOperator, Tree::SubtractionOperator);
    lemma_symbol_advances(s, '*', Rule::MultiplicationOperator, Tree::MultiplicationOperator);
    lemma_symbol_advances(s, '/', Rule::DivisionOperator, Tree::DivisionOperator);
}

/// What is left behind an optional sign is a suffix.
proof fn lemma_after_sign_is_suffix(s: Seq<char>)
    ensures
        is_suffix(after_sign(s), s),
{
    if starts_with(s, '-') {
        lemma_skip_is_suffix(s, 1);
    } else {
        assert(s.skip(0) =~= s);
    }
}

/// The integer rule advances, and what it reads is an integer.
pub proof fn lemma_integer_advances(s: Seq<char>)
    ensures
        advances(integer_rule(s), s),
        integer_rule(s) matches Ok((_, tree)) ==> tree is Integer,
{
    let start = skip_space(s);
    let body = after_sign(start);
    let n = digit_run(body) as int;
    lemma_skip_space_is_suffix(s);
    lemma_after_sign_is_suffix(start);
    lemma_suffix_of_suffix(body, start, s);
    lemma_digit_run_bound(body);
    if n > 0 {
        lemma_skip_is_suffix(body, n);
        lemma_skip_space_is_suffix(body.skip(n));
        lemma_suffix_of_suffix(body.skip(n), body, s);
        lemma_suffix_of_suffix(skip_space(body.skip(n)), body.skip(n), s);
    }
}

/// The float rule advances, and what it reads is a well-formed float.
pub proof fn lemma_float_advances(s: Seq<char>)
    ensures
        advances(float_literal(s), s),
        float_literal(s) matches Ok((_, tree)) ==> tree is Float && tree.is_literal(),
        advances(float_rule(s), s),
        float_rule(s) matches Ok((_, tree)) ==> tree.is_factor(),
{
    let start = skip_space(s);
    let body = after_sign(start);
    let n = digit_run(body) as int;
    lemma_skip_space_is_suffix(s);
    lemma_after_sign_is_suffix(start);
    lemma_suffix_of_suffix(body, start, s);
    lemma_digit_run_bound(body);
    if n > 0 {
        let point = body.skip(n);
        lemma_skip_is_suffix(body, n);
        lemma_suffix_of_suffix(point, body, s);
        if starts_with(point, '.') {
            let decimals = point.skip(1);
            let m = digit_run(decimals) as int;
            lemma_skip_is_suffix(point, 1);
            lemma_suffix_of_suffix(decimals, point, s);
            lemma_digit_run_bound(decimals);
            if m > 0 {
                lemma_skip_is_suffix(decimals, m);
                lemma_skip_space_is_suffix(decimals.skip(m));
                lemma_suffix_of_suffix(decimals.skip(m), decimals, s);
                lemma_suffix_of_suffix(skip_space(decimals.skip(m)), decimals.skip(m), s);
                assert(all_digits(body.take(n)));
                assert(all_digits(decimals.take(m)));
            }
        }
    }
}

/// The factor rule advances, and what it reads is a well-formed factor.
pub proof fn lemma_factor_advances(s: Seq<char>)
    ensures
        advances(factor_rule(s), s),
        factor_rule(s) matches Ok((_, tree)) ==> tree.is_factor(),
    decreases s.len(), 1int,
{
    lemma_integer_advances(s);
    lemma_float_advances(s);
    if literal_rule(s) is Err && literal_rule(s)->Err_0 is SyntaxError {
        let start = skip_space(s);
        lemma_skip_space_is_suffix(s);
        if starts_with(start, '(') {
            let inner = start.skip(1);
            lemma_skip_is_suffix(start, 1);
            lemma_suffix_of_suffix(inner, start, s);
            lemma_expression_advances(inner);
            match expression_rule(inner) {
                Ok((rest, _)) => {
                    lemma_suffix_of_suffix(rest, inner, s);
                    if starts_with(rest, ')') {
                        lemma_skip_is_suffix(rest, 1);
                        lemma_skip_space_is_suffix(rest.skip(1));
                        lemma_suffix_of_suffix(rest.skip(1), rest, s);
                        lemma_suffix_of_suffix(skip_space(rest.skip(1)), rest.skip(1), s);
                    }
                },
                Err(e) => {
                    lemma_suffix_of_suffix(remainder(e), inner, s);
                },
            }
        }
    }
}

/// The repetition of a term proceeds, and its pairs are well formed.
pub proof fn lemma_term_tail_proceeds(s: Seq<char>)
    ensures
        proceeds(term_tail(s), s),
        term_tail(s) matches Ok((_, pairs)) ==> multiplicative_pairs(pairs),
    decreases s.len(), 2int,
{
    lemma_operators_advance(s);
    lemma_skip_is_suffix(s, 0);
    assert(s.skip(0) =~= s);
    if let Ok((after, operator)) = multiplicative_rule(s) {
        lemma_factor_advances(after);
        match factor_rule(after) {
            Ok((rest, operand)) => {
                lemma_term_tail_proceeds(rest);
                lemma_suffix_of_suffix(rest, after, s);
                match term_tail(rest) {
                    Ok((end, more)) => {
                        lemma_suffix_of_suffix(end, rest, s);
                        let pairs = seq![(operator, operand)] + more;
                        assert forall|i: int| 0 <= i < pairs.len() implies {
                            &&& (#[trigger] pairs[i]).0 is MultiplicationOperator
                                || pairs[i].0 is DivisionOperator
                            &&& pairs[i].1.is_factor()
                        } by {
                            if i > 0 {
                                assert(pairs[i] == more[i - 1]);
                            }
                        }
                    },
                    Err(e) => {
                        lemma_suffix_of_suffix(remainder(e), rest, s);
                    },
                }
            },
            Err(e) => {
                lemma_suffix_of_suffix(remainder(e), after, s);
            },
        }
    }
}

/// The term rule advances, and what it reads is a well-formed term.
pub proof fn lemma_term_advances(s: Seq<char>)
    ensures
        advances(term_rule(s), s),
        term_rule(s) matches Ok((_, tree)) ==> tree.is_term(),
    decreases s.len(), 3int,
{
    lemma_factor_advances(s);
    if let Ok((rest, _)) = factor_rule(s) {
        lemma_term_tail_proceeds(rest);
        match term_tail(rest) {
            Ok((end, _)) => {
                lemma_suffix_of_suffix(end, rest, s);
            },
            Err(e) => {
                lemma_suffix_of_suffix(remainder(e), rest, s);
            },
        }
    }
}

/// The repetition of an expression proceeds, and its pairs are well formed.
pub proof fn lemma_expression_tail_proceeds(s: Seq<char>)
    ensures
        proceeds(expression_tail(s), s),
        expression_tail(s) matches Ok((_, pairs)) ==> additive_pairs(pairs),
    decreases s.len(), 4int,
{
    lemma_operators_advance(s);
    lemma_skip_is_suffix(s, 0);
    assert(s.skip(0) =~= s);
    if let Ok((after, operator)) = additive_rule(s) {
        lemma_term_advances(after);
        match term_rule(after) {
            Ok((rest, operand)) => {
                lemma_expression_tail_proceeds(rest);
                lemma_suffix_of_suffix(rest, after, s);
                match expression_tail(rest) {
                    Ok((end, more)) => {
                        lemma_suffix_of_suffix(end, rest, s);
                        let pairs = seq![(operator, operand)] + more;
                        assert forall|i: int| 0 <= i < pairs.len() implies {
                            &&& (#[trigger] pairs[i]).0 is AdditionOperator
                                || pairs[i].0 is SubtractionOperator
                            &&& pairs[i].1.is_term()
                        } by {
                            if i > 0 {
                                assert(pairs[i] == more[i - 1]);
                            }
                        }
                    },
                    Err(e) => {
                        lemma_suffix_of_suffix(remainder(e), rest, s);
                    },
                }
            },
            Err(e) => {
                lemma_suffix_of_suffix(remainder(e), after, s);
            },
        }
    }
}

/// The expression rule advances, and what it reads is a well-formed
/// expression.
pub proof fn lemma_expression_advances(s: Seq<char>)
    ensures
        advances(expression_rule(s), s),
        expression_rule(s) matches Ok((_, tree)) ==> tree.is_expression(),
    decreases s.len(), 5int,
{
    lemma_term_advances(s);
    if let Ok((rest, _)) = term_rule(s) {
        lemma_expression_tail_proceeds(rest);
        match expression_tail(rest) {
            Ok((end, _)) => {
                lemma_suffix_of_suffix(end, rest, s);
            },
            Err(e) => {
                lemma_suffix_of_suffix(remainder(e), rest, s);
            },
        }
    }
}

/// The repetition of a program proceeds, and reads well-formed expressions.
pub proof fn lemma_program_tail_proceeds(s: Seq<char>)
    ensures
        proceeds(program_tail(s), s),
        program_tail(s) matches Ok((_, expressions)) ==> forall|i: int|
            0 <= i < expressions.len() ==> (#[trigger] expressions[i]).is_expression(),
    decreases s.len(),
{
    lemma_expression_advances(s);
    lemma_skip_is_suffix(s, 0);
    assert(s.skip(0) =~= s);
    if let Ok((rest, expression)) = expression_rule(s) {
        lemma_program_tail_proceeds(rest);
        match program_tail(rest) {
            Ok((end, more)) => {
                lemma_suffix_of_suffix(end, rest, s);
                let expressions = seq![expression] + more;
                assert forall|i: int| 0 <= i < expressions.len() implies (
                #[trigger] expressions[i]).is_expression() by {
                    if i > 0 {
                        assert(expressions[i] == more[i - 1]);
                    }
                }
            },
            Err(e) => {
                lemma_suffix_of_suffix(remainder(e), rest, s);
            },
        }
    }
}

/// The program rule advances, and what it reads is a well-formed program.
pub proof fn lemma_program_advances(s: Seq<char>)
    ensures
        advances(program_rule(s), s),
        program_rule(s) matches Ok((_, tree)) ==> tree.is_program(),
{
    lemma_expression_advances(s);
    if let Ok((rest, first)) = expression_rule(s) {
        lemma_program_tail_proceeds(rest);
        match program_tail(rest) {
            Ok((end, more)) => {
                lemma_suffix_of_suffix(end, rest, s);
                let expressions = seq![first] + more;
                assert forall|i: int| 0 <= i < expressions.len() implies (
                #[trigger] expressions[i]).is_expression() by {
                    if i > 0 {
                        assert(expressions[i] == more[i - 1]);
                    }
                }
            },
            Err(e) => {
                lemma_suffix_of_suffix(remainder(e), rest, s);
            },
        }
    }
}

/// The comparisons of lengths that the rules hold for the sake of their
/// recursion are always true: `consuming` changes no parse, and an opening
/// parenthesis always leaves less than the text it was found in.
pub proof fn lemma_rules_consume(s: Seq<char>)
    ensures
        consuming(additive_rule(s), s) == additive_rule(s),
        consuming(multiplicative_rule(s), s) == multiplicative_rule(s),
        consuming(factor_rule(s), s) == factor_rule(s),
        consuming(term_rule(s), s) == term_rule(s),
        consuming(expression_rule(s), s) == expression_rule(s),
        starts_with(skip_space(s), '(') ==> skip_space(s).skip(1).len() < s.len(),
{
    lemma_operators_advance(s);
    lemma_factor_advances(s);
    lemma_term_advances(s);
    lemma_expression_advances(s);
    lemma_space_run_bound(s);
}

/// A text of whitespace alone, or of nothing, is no program: the rule fails
/// at its end, where a factor is missing.
pub proof fn law_blank_text_is_no_program(s: Seq<char>)
    requires
        skip_space(s).len() == 0,
    ensures
        program_rule(s) == Err::<(Seq<char>, Tree), Failure>(
            Failure::SyntaxError { rule: Rule::Factor, remainder: skip_space(s) },
        ),
{
}

/// Parsing is a function of the text: two parses of one text agree in the
/// tree, in the text they leave and in the failure.
pub proof fn law_parsing_is_deterministic<'a, 'b>(
    first: Result<(&'a str, Token), ParseError<'a>>,
    second: Result<(&'b str, Token), ParseError<'b>>,
    text: Seq<char>,
)
    requires
        parsed(first) == program_rule(text),
        parsed(second) == program_rule(text),
    ensures
        parsed(first) == parsed(second),
        first matches Ok((_, tree)) ==> second matches Ok((_, other)) && tree@ == other@,
{
}

/// Whether a parse leaves a text that begins with no whitespace.
pub open spec fn trims<T>(p: Result<(Seq<char>, T), Failure>) -> bool {
    p matches Ok((rest, _)) ==> skip_space(rest) == rest
}

/// The rules that read a single token consume the whitespace behind it.
pub proof fn lemma_tokens_trim(s: Seq<char>)
    ensures
        trims(additive_rule(s)),
        trims(multiplicative_rule(s)),
        trims(operator_rule(s)),
        trims(integer_rule(s)),
        trims(float_literal(s)),
        trims(float_rule(s)),
        trims(literal_rule(s)),
{
    let start = skip_space(s);
    lemma_skip_space_trims(start.skip(1));
    let body = after_sign(start);
    lemma_skip_space_trims(body.skip(digit_run(body) as int));
    let decimals = body.skip(digit_run(body) as int).skip(1);
    lemma_skip_space_trims(decimals.skip(digit_run(decimals) as int));
}

/// A factor consumes the whitespace behind it.
pub proof fn lemma_factor_trims(s: Seq<char>)
    ensures
        trims(factor_rule(s)),
    decreases s.len(), 1int,
{
    lemma_tokens_trim(s);
    let start = skip_space(s);
    if starts_with(start, '(') && start.skip(1).len() < s.len() {
        if let Ok((rest, _)) = expression_rule(start.skip(1)) {
            lemma_skip_space_trims(rest.skip(1));
        }
    }
}

/// The repetition of a term, begun where no whitespace stands, ends where
/// none stands.
pub proof fn lemma_term_tail_trims(s: Seq<char>)
    requires
        skip_space(s) == s,
    ensures
        trims(term_tail(s)),
    decreases s.len(), 2int,
{
    if let Ok((after, _)) = consuming(multiplicative_rule(s), s) {
        lemma_factor_trims(after);
        if let Ok((rest, _)) = consuming(factor_rule(after), after) {
            lemma_term_tail_trims(rest);
        }
    }
}

/// A term consumes the whitespace behind it.
pub proof fn lemma_term_trims(s: Seq<char>)
    ensures
        trims(term_rule(s)),
    decreases s.len(), 3int,
{
    lemma_factor_trims(s);
    if let Ok((rest, _)) = consuming(factor_rule(s), s) {
        lemma_term_tail_trims(rest);
    }
}

/// The repetition of an expression, begun where no whitespace stands, ends
/// where none stands.
pub proof fn lemma_expression_tail_trims(s: Seq<char>)
    requires
        skip_space(s) == s,
    ensures
        trims(expression_tail(s)),
    decreases s.len(), 4int,
{
    if let Ok((after, _)) = consuming(additive_rule(s), s) {
        lemma_term_trims(after);
        if let Ok((rest, _)) = consuming(term_rule(after), after) {
            lemma_expression_tail_trims(rest);
        }
    }
}

/// An expression consumes the whitespace behind it.
pub proof fn lemma_expression_trims(s: Seq<char>)
    ensures
        trims(expression_rule(s)),
    decreases s.len(), 5int,
{
    lemma_term_trims(s);
    if let Ok((rest, _)) = consuming(term_rule(s), s) {
        lemma_expression_tail_trims(rest);
    }
}

/// The repetition of a program, begun where no whitespace stands, ends
/// where none stands.
pub proof fn lemma_program_tail_trims(s: Seq<char>)
    requires
        skip_space(s) == s,
    ensures
        trims(program_tail(s)),
    decreases s.len(),
{
    lemma_expression_trims(s);
    if let Ok((rest, _)) = consuming(expression_rule(s), s) {
        lemma_program_tail_trims(rest);
    }
}

/// Every rule consumes the whitespace before what it reads and the
/// whitespace behind it: the whitespace that a text begins with changes
/// nothing in what a rule makes of it, and the text that a rule leaves begins
/// with none.
pub proof fn law_rules_consume_whitespace(s: Seq<char>)
    ensures
        operator_rule(skip_space(s)) == operator_rule(s),
        integer_rule(skip_space(s)) == integer_rule(s),
        float_rule(skip_space(s)) == float_rule(s),
        factor_rule(skip_space(s)) == factor_rule(s),
        term_rule(skip_space(s)) == term_rule(s),
        expression_rule(skip_space(s)) == expression_rule(s),
        program_rule(skip_space(s)) == program_rule(s),
        trims(operator_rule(s)),
        trims(integer_rule(s)),
        trims(float_rule(s)),
        trims(factor_rule(s)),
        trims(term_rule(s)),
        trims(expression_rule(s)),
        trims(program_rule(s)),
{
    let t = skip_space(s);
    lemma_skip_space_trims(s);
    lemma_space_run_bound(s);
    lemma_rules_consume(s);
    lemma_rules_consume(t);
    lemma_tokens_trim(s);
    lemma_factor_trims(s);
    lemma_term_trims(s);
    lemma_expression_trims(s);
    assert(factor_rule(t) == factor_rule(s));
    assert(term_rule(t) == term_rule(s));
    assert(expression_rule(t) == expression_rule(s));
    if let Ok((rest, _)) = expression_rule(s) {
        lemma_program_tail_trims(rest);
    }
}

/// Whether every character of `s` is whitespace.
pub open spec fn all_spaces(s: Seq<char>) -> bool {
    forall|i: int| 0 <= i < s.len() ==> is_space(#[trigger] s[i])
}

/// Whitespace before a text that begins with none is the whole leading run.
pub proof fn lemma_space_run_before(spaces: Seq<char>, rest: Seq<char>)
    requires
        all_spaces(spaces),
        rest.len() == 0 || !is_space(rest[0]),
    ensures
        space_run(spaces + rest) == spaces.len(),
        skip_space(spaces + rest) == rest,
    decreases spaces.len(),
{
    let s = spaces + rest;
    if spaces.len() > 0 {
        assert(is_space(spaces[0]));
        assert(s.skip(1) =~= spaces.skip(1) + rest);
        lemma_space_run_before(spaces.skip(1), rest);
    } else {
        assert(s =~= rest);
    }
    assert(s.skip(spaces.len() as int) =~= rest);
}

/// Digits before a text that begins with none are the whole leading run.
pub proof fn lemma_digit_run_before(digits: Seq<char>, rest: Seq<char>)
    requires
        all_digits(digits),
        rest.len() == 0 || !is_digit(rest[0]),
    ensures
        digit_run(digits + rest) == digits.len(),
    decreases digits.len(),
{
    let s = digits + rest;
    if digits.len() > 0 {
        assert(is_digit(digits[0]));
        assert(s.skip(1) =~= digits.skip(1) + rest);
        lemma_digit_run_before(digits.skip(1), rest);
    } else {
        assert(s =~= rest);
    }
}

/// The text of a sign: a minus where the number is negative, and nothing
/// otherwise.
pub open spec fn sign_text(negative: bool) -> Seq<char> {
    if negative {
        seq!['-']
    } else {
        Seq::empty()
    }
}

/// An integer literal between whitespace is read whole, as the integer that
/// its sign and digits denote, exactly where that integer is neither below
/// `i64::MIN` nor beyond `i64::MAX`; otherwise the literal is refused for its
/// conversion, at its sign. The smallest integer itself is read.
pub proof fn law_integer_literal(
    before: Seq<char>,
    negative: bool,
    digits: Seq<char>,
    behind: Seq<char>,
)
    requires
        all_spaces(before),
        all_spaces(behind),
        digits.len() > 0,
        all_digits(digits),
    ensures
        integer_rule(before + sign_text(negative) + digits + behind) == if i64::MIN
            <= signed_value(negative, digits) <= i64::MAX {
            Ok::<(Seq<char>, Tree), Failure>(
                (Seq::empty(), Tree::Integer { value: signed_value(negative, digits) as i64 }),
            )
        } else {
            Err::<(Seq<char>, Tree), Failure>(
                Failure::LiteralConversionError {
                    remainder: sign_text(negative) + digits + behind,
                },
            )
        },
{
    let literal = sign_text(negative) + digits + behind;
    let s = before + sign_text(negative) + digits + behind;
    assert(s =~= before + literal);
    assert(is_digit(digits[0]));
    assert(literal[0] == if negative {
        '-'
    } else {
        digits[0]
    });
    lemma_space_run_before(before, literal);
    let body = after_sign(literal);
    assert(body =~= digits + behind);
    if behind.len() > 0 {
        assert(is_space(behind[0]));
    }
    lemma_digit_run_before(digits, behind);
    assert(body.take(digits.len() as int) =~= digits);
    assert(body.skip(digits.len() as int) =~= behind);
    assert(behind =~= behind + Seq::<char>::empty());
    lemma_space_run_before(behind, Seq::empty());
}

} // verus!
