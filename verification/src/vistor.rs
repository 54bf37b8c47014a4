use crate::assembly::{join, joined, prepend_sections, texts, with_sections};
use crate::decimal::{append_decimal, append_integer};
use crate::emit::{
    fresh, literal_text, load, load_line, operate, operation_line, register_text, visit,
    visit_each, visit_pairs, CompilerView, Visit,
};
use crate::error::{AssemblerError, CompileError};
use crate::token::{pair_trees, trees, Token};
use vstd::prelude::*;
use vstd::string::StringExecFns;

verus! {

/// Something that walks a syntax tree.
pub trait Visitor {
    fn visit_token(&mut self, node: &Token) -> Result<(), CompileError>;
}

/// Turns a syntax tree into assembly, one instruction per literal and per
/// operator, and allots the registers that the instructions name.
pub struct Compiler {
    /// The registers that hold nothing; the last is handed out first.
    free_registers: Vec<u8>,
    /// The registers that hold a value not yet consumed; the last is the
    /// newest.
    used_registers: Vec<u8>,
    /// The instructions emitted so far.
    assembly: Vec<String>,
}

impl View for Compiler {
    type V = CompilerView;

    closed spec fn view(&self) -> CompilerView {
        CompilerView {
            free: self.free_registers@,
            used: self.used_registers@,
            assembly: texts(self.assembly@),
        }
    }
}

/// What a traversal answered, beside the state it left.
pub open spec fn outcome(state: CompilerView, r: Result<(), CompileError>) -> Visit {
    Visit {
        state,
        error: match r {
            Ok(_) => None,
            Err(e) => Some(e),
        },
    }
}

/// What an answer of the assembler means for the compilation.
pub open spec fn concluded(answer: Result<Vec<u8>, String>) -> Result<Vec<u8>, AssemblerError> {
    match answer {
        Ok(bytecode) => Ok(bytecode),
        Err(diagnostic) => Err(AssemblerError { diagnostic }),
    }
}

/// Ends a compilation on the assembler's answer: its bytecode, or its
/// diagnostic as an error.
pub fn conclude(answer: Result<Vec<u8>, String>) -> (r: Result<Vec<u8>, AssemblerError>)
    ensures
        r == concluded(answer),
{
    match answer {
        Ok(bytecode) => Ok(bytecode),
        Err(diagnostic) => Err(AssemblerError { diagnostic }),
    }
}

/// The bytecode of a compilation, and no byte at all where it failed.
pub fn bytecode_or_empty(compiled: Result<Vec<u8>, AssemblerError>) -> (bytecode: Vec<u8>)
    ensures
        match compiled {
            Ok(assembled) => bytecode == assembled,
            Err(_) => bytecode@ == Seq::<u8>::empty(),
        },
{
    match compiled {
        Ok(assembled) => assembled,
        Err(_) => Vec::new(),
    }
}

impl Default for Compiler {
    /// A compiler that has emitted nothing and has no register at all.
    fn default() -> (compiler: Self)
        ensures
            compiler@ == (CompilerView {
                free: Seq::empty(),
                used: Seq::empty(),
                assembly: Seq::empty(),
            }),
    {
        let compiler = Compiler {
            free_registers: Vec::new(),
            used_registers: Vec::new(),
            assembly: Vec::new(),
        };
        assert(compiler@.assembly =~= Seq::<Seq<char>>::empty());
        compiler
    }
}

/// Appends the name of `register` to `text`.
fn append_register(text: &mut String, register: u8)
    ensures
        final(text)@ == old(text)@ + register_text(register),
{
    text.append("$");
    append_decimal(text, register as u64);
    assert(final(text)@ =~= old(text)@ + register_text(register));
}

/// Appends the operand text of a literal to `text`.
fn append_literal(text: &mut String, literal: &Token)
    requires
        literal@ is Integer || literal@ is Float,
    ensures
        final(text)@ == old(text)@ + literal_text(literal@),
{
    match literal {
        Token::Integer { value } => {
            append_integer(text, *value);
        },
        Token::Float { negative, whole, fraction } => {
            if *negative {
                text.append("-");
            }
            text.append(whole.as_str());
            text.append(".");
            text.append(fraction.as_str());
            assert(final(text)@ =~= old(text)@ + literal_text(literal@));
        },
        _ => {},
    }
}

/// Writes the instruction of `operator`.
fn operation(operator: &Token, left: u8, right: u8, result: u8) -> (line: String)
    requires
        operator@ is AdditionOperator || operator@ is SubtractionOperator
            || operator@ is MultiplicationOperator || operator@ is DivisionOperator,
    ensures
        line@ == operation_line(operator@, left, right, result),
{
    let (name, right_first) = match operator {
        Token::AdditionOperator => ("ADD", true),
        Token::SubtractionOperator => ("SUB", true),
        Token::MultiplicationOperator => ("MUL", false),
        _ => ("DIV", false),
    };
    let mut line = String::from_str(name);
    line.append(" ");
    append_register(
        &mut line,
        if right_first {
            right
        } else {
            left
        },
    );
    line.append(" ");
    append_register(
        &mut line,
        if right_first {
            left
        } else {
            right
        },
    );
    line.append(" ");
    append_register(&mut line, result);
    assert(line@ =~= operation_line(operator@, left, right, result));
    line
}

impl Compiler {
    /// A compiler that has emitted nothing, with the registers 0 to 30 free;
    /// register 0 is handed out first.
    pub fn new() -> (compiler: Self)
        ensures
            compiler@ == fresh(),
    {
        let mut free_registers: Vec<u8> = Vec::new();
        let mut next: u8 = 31;
        while next > 0
            invariant
                next <= 31,
                free_registers@ =~= Seq::new((31 - next) as nat, |i: int| (30 - i) as u8),
            decreases next,
        {
            next -= 1;
            free_registers.push(next);
        }
        let compiler = Compiler { free_registers, used_registers: Vec::new(), assembly: Vec::new() };
        assert(compiler@.assembly =~= Seq::<Seq<char>>::empty());
        compiler
    }

    /// `input` behind the marker of the code section and that of the data
    /// section, each put in only where `input` does not hold it.
    pub fn prepend_two_section(&self, input: &str) -> (text: String)
        ensures
            text@ == with_sections(input@),
    {
        prepend_sections(input)
    }

    /// The program that goes to the assembler: the instructions emitted so
    /// far, one per line, behind the section markers.
    pub fn program(&self) -> (text: String)
        ensures
            text@ == with_sections(joined(self@.assembly)),
    {
        let lines = join(&self.assembly);
        self.prepend_two_section(lines.as_str())
    }

    /// Assembles the program with `assemble`. Where the assembler refuses
    /// the program there is no bytecode, and the error holds its diagnostic.
    pub fn compile<F: FnOnce(&str) -> Result<Vec<u8>, String>>(&self, assemble: F) -> (r: Result<
        Vec<u8>,
        AssemblerError,
    >)
        requires
            forall|text: &str|
                text@ == with_sections(joined(self@.assembly)) ==> call_requires(
                    assemble,
                    (text,),
                ),
        ensures
            exists|text: &str, answer: Result<Vec<u8>, String>|
                text@ == with_sections(joined(self@.assembly)) && call_ensures(
                    assemble,
                    (text,),
                    answer,
                ) && r == concluded(answer),
    {
        let program = self.program();
        let answer = assemble(program.as_str());
        conclude(answer)
    }

    /// The instructions emitted so far.
    pub fn assembly(&self) -> (lines: &Vec<String>)
        ensures
            texts(lines@) == self@.assembly,
    {
        &self.assembly
    }

    /// The free registers; the last is handed out first.
    pub fn free_registers(&self) -> (registers: &Vec<u8>)
        ensures
            registers@ == self@.free,
    {
        &self.free_registers
    }

    /// The registers in use; the last is the newest.
    pub fn used_registers(&self) -> (registers: &Vec<u8>)
        ensures
            registers@ == self@.used,
    {
        &self.used_registers
    }

    /// Visits a literal.
    fn emit_load(&mut self, literal: &Token) -> (r: Result<(), CompileError>)
        requires
            literal@ is Integer || literal@ is Float,
        ensures
            outcome(final(self)@, r) == load(old(self)@, literal_text(literal@)),
    {
        let register = match self.free_registers.pop() {
            Some(register) => register,
            None => {
                return Err(CompileError::RegisterExhausted);
            },
        };
        let mut line = String::from_str("LOAD ");
        append_register(&mut line, register);
        line.append(" #");
        append_literal(&mut line, literal);
        assert(line@ =~= load_line(register, literal_text(literal@)));
        self.used_registers.push(register);
        self.assembly.push(line);
        proof {
            assert(texts(self.assembly@) =~= texts(old(self).assembly@).push(line@));
            assert(self.free_registers@ =~= old(self).free_registers@.drop_last());
        }
        Ok(())
    }

    /// Visits an operator.
    fn emit_operation(&mut self, operator: &Token) -> (r: Result<(), CompileError>)
        requires
            operator@ is AdditionOperator || operator@ is SubtractionOperator
                || operator@ is MultiplicationOperator || operator@ is DivisionOperator,
        ensures
            outcome(final(self)@, r) == operate(old(self)@, operator@),
    {
        if self.used_registers.len() < 2 {
            return Err(CompileError::OperandStackUnderflow);
        }
        if self.free_registers.len() == 0 {
            return Err(CompileError::RegisterExhausted);
        }
        let right = self.used_registers.pop().unwrap();
        let left = self.used_registers.pop().unwrap();
        let result = self.free_registers.pop().unwrap();
        let line = operation(operator, left, right, result);
        self.assembly.push(line);
        self.used_registers.push(result);
        self.free_registers.push(right);
        self.free_registers.push(left);
        proof {
            assert(texts(self.assembly@) =~= texts(old(self).assembly@).push(line@));
            assert(self.free_registers@ =~= old(self).free_registers@.drop_last().push(
                right,
            ).push(left));
            assert(self.used_registers@ =~= old(self).used_registers@.take(
                old(self).used_registers@.len() - 2,
            ).push(result));
        }
        Ok(())
    }

    /// Visits `node` and all below it.
    fn walk(&mut self, node: &Token) -> (r: Result<(), CompileError>)
        ensures
            outcome(final(self)@, r) == visit(old(self)@, node@),
        decreases node,
    {
        match node {
            Token::AdditionOperator
            | Token::SubtractionOperator
            | Token::MultiplicationOperator
            | Token::DivisionOperator => self.emit_operation(node),
            Token::Integer { .. } | Token::Float { .. } => self.emit_load(node),
            Token::Factor { value } => self.walk(value),
            Token::Term { left, right } | Token::Expression { left, right } => {
                match self.walk(left) {
                    Err(e) => {
                        return Err(e);
                    },
                    Ok(_) => {},
                }
                let ghost pairs = pair_trees(right@);
                let mut i: usize = 0;
                while i < right.len()
                    invariant
                        i <= right.len(),
                        pairs == pair_trees(right@),
                        visit(old(self)@, node@) == visit_pairs(self@, pairs, i as int),
                        node == (Token::Term { left: *left, right: *right }) || node == (
                        Token::Expression { left: *left, right: *right }),
                    decreases right.len() - i,
                {
                    let pair = &right[i];
                    assert(pairs[i as int] == (pair.0@, pair.1@));
                    match self.walk(&pair.1) {
                        Err(e) => {
                            return Err(e);
                        },
                        Ok(_) => {},
                    }
                    match self.walk(&pair.0) {
                        Err(e) => {
                            return Err(e);
                        },
                        Ok(_) => {},
                    }
                    i += 1;
                }
                Ok(())
            },
            Token::Program { expressions } => {
                let ghost all = trees(expressions@);
                let mut i: usize = 0;
                while i < expressions.len()
                    invariant
                        i <= expressions.len(),
                        all == trees(expressions@),
                        visit(old(self)@, node@) == visit_each(self@, all, i as int),
                        node == (Token::Program { expressions: *expressions }),
                    decreases expressions.len() - i,
                {
                    assert(all[i as int] == expressions[i as int]@);
                    match self.walk(&expressions[i]) {
                        Err(e) => {
                            return Err(e);
                        },
                        Ok(_) => {},
                    }
                    i += 1;
                }
                Ok(())
            },
        }
    }
}

impl Visitor for Compiler {
    /// Visits `node` and all below it in post-order: a literal takes a free
    /// register and emits a load, an operator consumes the two newest
    /// registers in use and emits its instruction. The walk stops at the
    /// first step that fails, and what was emitted until then stays.
    fn visit_token(&mut self, node: &Token) -> (r: Result<(), CompileError>)
        ensures
            outcome(final(self)@, r) == visit(old(self)@, node@),
    {
        self.walk(node)
    }
}

} // verus!
