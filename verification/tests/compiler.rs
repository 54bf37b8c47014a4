use lrvmism::error::{AssemblerError, CompileError};
use lrvmism::program_parsers::program_parser;
use lrvmism::token::Token;
use lrvmism::vistor::{bytecode_or_empty, conclude, Compiler, Visitor};

fn generate_test_program(source: &str) -> Token {
    let (_, tree) = program_parser(source).unwrap();
    tree
}

/// Stands in for the assembler: the bytes of the program text.
fn echo(text: &str) -> Result<Vec<u8>, String> {
    Ok(text.as_bytes().to_vec())
}

fn lines_of(source: &str) -> Vec<String> {
    let mut compiler = Compiler::new();
    compiler.visit_token(&generate_test_program(source)).unwrap();
    compiler.assembly().clone()
}

#[test]
fn test_visit_addition_token() {
    let source = "1+2";
    let mut compiler = Compiler::new();
    let test_program = generate_test_program(&source);
    compiler.visit_token(&test_program).unwrap();
    let bytecode = bytecode_or_empty(compiler.compile(echo));
    println!("({}) bytecodes: {:?}", source, bytecode);
}

#[test]
fn test_nested_operators() {
    let source = "(4*3)-1";
    let mut compiler = Compiler::new();
    let test_program = generate_test_program(&source);
    compiler.visit_token(&test_program).unwrap();
    let bytecode = bytecode_or_empty(compiler.compile(echo));
    println!("({}) bytecodes: {:?}", source, bytecode);
}

#[test]
fn new_compiler_has_registers_0_to_30() {
    let compiler = Compiler::new();
    let expected: Vec<u8> = (0..31).rev().collect();
    assert_eq!(compiler.free_registers(), &expected);
    assert!(compiler.used_registers().is_empty());
    assert!(compiler.assembly().is_empty());
}

#[test]
fn addition_names_the_right_operand_first() {
    assert_eq!(lines_of("1+2"), vec!["LOAD $0 #1", "LOAD $1 #2", "ADD $1 $0 $2"]);
}

#[test]
fn multiplication_names_the_left_operand_first() {
    assert_eq!(lines_of("3*4"), vec!["LOAD $0 #3", "LOAD $1 #4", "MUL $0 $1 $2"]);
    assert_eq!(lines_of("8/2"), vec!["LOAD $0 #8", "LOAD $1 #2", "DIV $0 $1 $2"]);
}

#[test]
fn nested_operators_emit_five_instructions() {
    assert_eq!(
        lines_of("(4*3)-1"),
        vec!["LOAD $0 #4", "LOAD $1 #3", "MUL $0 $1 $2", "LOAD $0 #1", "SUB $0 $2 $1"]
    );
}

#[test]
fn single_literal_emits_one_load() {
    assert_eq!(lines_of("5"), vec!["LOAD $0 #5"]);
    assert_eq!(lines_of("-12"), vec!["LOAD $0 #-12"]);
    assert_eq!(lines_of("9223372036854775807"), vec!["LOAD $0 #9223372036854775807"]);
    assert_eq!(lines_of("-9223372036854775808"), vec!["LOAD $0 #-9223372036854775808"]);
    assert_eq!(lines_of("2.50"), vec!["LOAD $0 #2.50"]);
    assert_eq!(lines_of("-0.5"), vec!["LOAD $0 #-0.5"]);
}

#[test]
fn smallest_integer_is_written_in_full() {
    let mut compiler = Compiler::new();
    compiler.visit_token(&Token::Integer { value: i64::MIN }).unwrap();
    assert_eq!(compiler.assembly(), &vec!["LOAD $0 #-9223372036854775808".to_string()]);
}

#[test]
fn registers_are_released_and_taken_again() {
    let mut compiler = Compiler::new();
    compiler.visit_token(&generate_test_program("1-2-3")).unwrap();
    assert_eq!(
        compiler.assembly(),
        &vec!["LOAD $0 #1", "LOAD $1 #2", "SUB $1 $0 $2", "LOAD $0 #3", "SUB $0 $2 $1"]
    );
    assert_eq!(compiler.used_registers(), &vec![1u8]);
    let free = compiler.free_registers();
    assert_eq!(free.len(), 30);
    assert_eq!(&free[27..], &[3u8, 0, 2]);
}

#[test]
fn each_expression_of_a_program_keeps_its_register() {
    let mut compiler = Compiler::new();
    compiler.visit_token(&generate_test_program("1 2+3 4")).unwrap();
    assert_eq!(
        compiler.assembly(),
        &vec!["LOAD $0 #1", "LOAD $1 #2", "LOAD $2 #3", "ADD $2 $1 $3", "LOAD $1 #4"]
    );
    assert_eq!(compiler.used_registers(), &vec![0u8, 3, 1]);
}

#[test]
fn compiling_twice_gives_the_same_instructions() {
    let tree = generate_test_program("(1+2)*(3-4)/5 6");
    let mut first = Compiler::new();
    let mut second = Compiler::new();
    assert_eq!(first.visit_token(&tree), second.visit_token(&tree));
    assert_eq!(first.assembly(), second.assembly());
    assert_eq!(first.compile(echo), second.compile(echo));
}

/// `depth` literals, each the right operand of the one before: all are live
/// at once.
fn right_nested(depth: usize) -> String {
    let mut text = String::new();
    for _ in 1..depth {
        text.push_str("1+(");
    }
    text.push('1');
    for _ in 1..depth {
        text.push(')');
    }
    text
}

#[test]
fn thirty_nested_operands_fit() {
    let mut compiler = Compiler::new();
    let tree = generate_test_program(&right_nested(30));
    assert_eq!(compiler.visit_token(&tree), Ok(()));
    assert_eq!(compiler.used_registers().len(), 1);
    assert_eq!(compiler.free_registers().len(), 30);
    assert_eq!(compiler.assembly().len(), 30 + 29);
}

#[test]
fn too_many_live_values_exhaust_the_registers() {
    let mut compiler = Compiler::new();
    let tree = generate_test_program(&right_nested(31));
    assert_eq!(compiler.visit_token(&tree), Err(CompileError::RegisterExhausted));
    assert_eq!(compiler.free_registers().len(), 0);
    assert_eq!(compiler.used_registers().len(), 31);
    assert_eq!(compiler.assembly().len(), 31);

    let mut compiler = Compiler::new();
    let tree = generate_test_program(&right_nested(40));
    assert_eq!(compiler.visit_token(&tree), Err(CompileError::RegisterExhausted));
    assert_eq!(compiler.assembly().len(), 31);
}

#[test]
fn thirty_two_expressions_exhaust_the_registers() {
    let source = vec!["7"; 32].join(" ");
    let mut compiler = Compiler::new();
    assert_eq!(
        compiler.visit_token(&generate_test_program(&source)),
        Err(CompileError::RegisterExhausted)
    );
    assert_eq!(compiler.assembly().len(), 31);
}

#[test]
fn default_compiler_has_no_register() {
    let mut compiler = Compiler::default();
    assert_eq!(
        compiler.visit_token(&Token::Integer { value: 1 }),
        Err(CompileError::RegisterExhausted)
    );
    assert!(compiler.assembly().is_empty());
}

#[test]
fn operator_without_operands_underflows() {
    let mut compiler = Compiler::new();
    assert_eq!(
        compiler.visit_token(&Token::AdditionOperator),
        Err(CompileError::OperandStackUnderflow)
    );
    compiler.visit_token(&Token::Integer { value: 1 }).unwrap();
    assert_eq!(
        compiler.visit_token(&Token::DivisionOperator),
        Err(CompileError::OperandStackUnderflow)
    );
    assert_eq!(compiler.assembly().len(), 1);
    assert_eq!(compiler.used_registers(), &vec![0u8]);

    let mut empty = Compiler::default();
    assert_eq!(
        empty.visit_token(&Token::MultiplicationOperator),
        Err(CompileError::OperandStackUnderflow)
    );
}

#[test]
fn section_markers_are_put_in_where_missing() {
    let compiler = Compiler::new();
    assert_eq!(compiler.prepend_two_section("LOAD $0 #1"), ".code\n.data\nLOAD $0 #1");
    assert_eq!(compiler.prepend_two_section(""), ".code\n.data\n");
    assert_eq!(compiler.prepend_two_section(".code\nHLT"), ".data\n.code\nHLT");
    assert_eq!(compiler.prepend_two_section(".data\nHLT"), ".code\n.data\nHLT");
    assert_eq!(compiler.prepend_two_section(".data\n.code\nHLT"), ".data\n.code\nHLT");
    assert_eq!(compiler.prepend_two_section("x.codex"), ".data\nx.codex");
    assert_eq!(compiler.prepend_two_section(".cod"), ".code\n.data\n.cod");
    assert_eq!(compiler.prepend_two_section("é.data"), ".code\né.data");
}

#[test]
fn program_joins_the_lines_behind_the_markers() {
    let mut compiler = Compiler::new();
    assert_eq!(compiler.program(), ".code\n.data\n");
    compiler.visit_token(&generate_test_program("1+2")).unwrap();
    assert_eq!(compiler.program(), ".code\n.data\nLOAD $0 #1\nLOAD $1 #2\nADD $1 $0 $2");
}

#[test]
fn compile_hands_the_program_to_the_assembler() {
    let mut compiler = Compiler::new();
    compiler.visit_token(&generate_test_program("5")).unwrap();
    let mut seen = String::new();
    let compiled = compiler.compile(|text: &str| {
        seen.push_str(text);
        Ok(vec![1, 2, 3])
    });
    assert_eq!(compiled, Ok(vec![1, 2, 3]));
    assert_eq!(seen, ".code\n.data\nLOAD $0 #5");
}

#[test]
fn assembler_failure_gives_no_bytecode() {
    let mut compiler = Compiler::new();
    compiler.visit_token(&generate_test_program("5")).unwrap();
    let compiled = compiler.compile(|_: &str| Err("no such opcode".to_string()));
    assert_eq!(compiled, Err(AssemblerError { diagnostic: "no such opcode".to_string() }));
    assert_eq!(bytecode_or_empty(compiled), Vec::<u8>::new());
    assert_eq!(bytecode_or_empty(Ok(vec![9, 8])), vec![9, 8]);
    assert_eq!(conclude(Ok(vec![4])), Ok(vec![4]));
    assert_eq!(
        conclude(Err("bad".to_string())),
        Err(AssemblerError { diagnostic: "bad".to_string() })
    );
}

#[test]
fn no_visit_makes_or_loses_a_register() {
    for source in ["5", "1+2*3", "(4*3)-1", "1 2 3", "((1))/(2-(3*4))"] {
        let mut compiler = Compiler::new();
        compiler.visit_token(&generate_test_program(source)).unwrap();
        let mut all: Vec<u8> = compiler.free_registers().clone();
        all.extend(compiler.used_registers().iter());
        all.sort();
        assert_eq!(all, (0..31).collect::<Vec<u8>>());
    }
    let mut compiler = Compiler::new();
    let tree = generate_test_program(&right_nested(35));
    assert_eq!(compiler.visit_token(&tree), Err(CompileError::RegisterExhausted));
    let mut all: Vec<u8> = compiler.free_registers().clone();
    all.extend(compiler.used_registers().iter());
    all.sort();
    assert_eq!(all, (0..31).collect::<Vec<u8>>());
}

#[test]
fn a_failed_step_changes_nothing() {
    let mut compiler = Compiler::new();
    let ill_formed = Token::Term {
        left: Box::new(Token::Integer { value: 1 }),
        right: vec![(Token::AdditionOperator, Token::AdditionOperator)],
    };
    assert_eq!(compiler.visit_token(&ill_formed), Err(CompileError::OperandStackUnderflow));
    assert_eq!(compiler.assembly(), &vec!["LOAD $0 #1".to_string()]);
    assert_eq!(compiler.used_registers(), &vec![0u8]);
    assert_eq!(compiler.free_registers().len(), 30);
}
