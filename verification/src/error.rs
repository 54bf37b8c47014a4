use vstd::prelude::*;

verus! {

/// The rules of the grammar, by which a syntax error says where it arose.
#[derive(Debug, Clone, Copy, PartialEq, Eq, Structural)]
pub enum Rule {
    Program,
    Expression,
    Term,
    Factor,
    Integer,
    Float,
    AdditionOperator,
    SubtractionOperator,
    MultiplicationOperator,
    DivisionOperator,
}

impl Rule {
    /// The name of the rule, as text.
    pub open spec fn name_text(self) -> Seq<char> {
        match self {
            Rule::Program => "program"@,
            Rule::Expression => "expression"@,
            Rule::Term => "term"@,
            Rule::Factor => "factor"@,
            Rule::Integer => "integer"@,
            Rule::Float => "float"@,
            Rule::AdditionOperator => "addition operator"@,
            Rule::SubtractionOperator => "subtraction operator"@,
            Rule::MultiplicationOperator => "multiplication operator"@,
            Rule::DivisionOperator => "division operator"@,
        }
    }

    /// The name of the rule.
    pub fn name(&self) -> (name: &'static str)
        ensures
            name@ == self.name_text(),
    {
        match self {
            Rule::Program => "program",
            Rule::Expression => "expression",
            Rule::Term => "term",
            Rule::Factor => "factor",
            Rule::Integer => "integer",
            Rule::Float => "float",
            Rule::AdditionOperator => "addition operator",
            Rule::SubtractionOperator => "subtraction operator",
            Rule::MultiplicationOperator => "multiplication operator",
            Rule::DivisionOperator => "division operator",
        }
    }
}

/// Why a tree could not be turned into instructions.
#[derive(Debug, Clone, Copy, PartialEq, Eq, Structural)]
pub enum CompileError {
    /// A register was asked for while none was free.
    RegisterExhausted,
    /// An operator was met while fewer than two operands were held.
    OperandStackUnderflow,
}

/// The assembler refused the program it was given.
#[derive(Debug, PartialEq, Eq)]
pub struct AssemblerError {
    /// What the assembler had to say about it.
    pub diagnostic: String,
}

/// Why a text could not be parsed.
#[derive(Debug, Clone, Copy, PartialEq, Eq)]
pub enum ParseError<'a> {
    /// The innermost rule that was tried last did not match at `remainder`.
    SyntaxError { rule: Rule, remainder: &'a str },
    /// The integer literal that `remainder` begins with denotes a number
    /// below the smallest or beyond the largest 64-bit signed integer.
    LiteralConversionError { remainder: &'a str },
}

/// A `ParseError` over sequences of characters.
pub enum Failure {
    SyntaxError { rule: Rule, remainder: Seq<char> },
    LiteralConversionError { remainder: Seq<char> },
}

impl<'a> View for ParseError<'a> {
    type V = Failure;

    open spec fn view(&self) -> Failure {
        match self {
            ParseError::SyntaxError { rule, remainder } => Failure::SyntaxError {
                rule: *rule,
                remainder: remainder@,
            },
            ParseError::LiteralConversionError { remainder } => Failure::LiteralConversionError {
                remainder: remainder@,
            },
        }
    }
}

} // verus!
