//! Whole-program scenarios, error reporting, and machine faults.

use c4rust::codegen::{generate_instructions, ASTNode, CodegenError, Expr};
use c4rust::lexer::{tokenize, Token};
use c4rust::parser::{parse, ParseError};
use c4rust::vm::{generate_instructions_from_ast, Instruction, RunOutcome, VmFault, VM};

const FUEL: usize = 100_000;

fn run_source(src: &str) -> VM {
    let tokens = tokenize(src);
    let ast = parse(&tokens).unwrap();
    let program = generate_instructions(&ast).unwrap();
    let mut vm = VM::new(program);
    let outcome = vm.run(FUEL);
    assert_eq!(outcome, RunOutcome::Halted);
    vm
}

#[test]
fn scenario_return_addition() {
    let vm = run_source("int main() { return 2 + 3; }");
    assert_eq!(vm.stack.last(), Some(&5));
}

#[test]
fn scenario_if_else_true_branch() {
    let vm = run_source("int main() { if (1 < 2) { return 42; } else { return 0; } }");
    assert_eq!(vm.stack.last(), Some(&42));
}

#[test]
fn scenario_assignment_overwrites_declaration() {
    let vm = run_source("int main() { int x = 5; x = 10; return x; }");
    assert_eq!(vm.stack.last(), Some(&10));
}

#[test]
fn scenario_division_then_remainder() {
    let vm = run_source("int main() { return 10 / 2 % 3; }");
    assert_eq!(vm.stack.last(), Some(&2));
}

#[test]
fn scenario_print_then_return() {
    let vm = run_source("int main() { printf(\"hey\\n\"); return 0; }");
    assert_eq!(vm.output, vec!["hey\n".to_string()]);
    assert_eq!(vm.stack.last(), Some(&0));
}

#[test]
fn scenario_bounded_while_loop() {
    // the loop body runs while the condition is non-zero and stops when
    // it reaches zero
    let vm = run_source("int main() { int x = 3; while (x > 0) x = x - 1; return x; }");
    assert_eq!(vm.stack.last(), Some(&0));
}

#[test]
fn scenario_if_false_without_else() {
    // a false condition resumes right after the then branch
    let vm = run_source("int main() { int x = 1; if (2 < 1) x = 99; return x; }");
    assert_eq!(vm.stack.last(), Some(&1));
}

#[test]
fn test_call_resolved_to_entry_address() {
    // the call target is the function's true emitted entry address (1),
    // not its position in the statement list (0)
    let ast = ASTNode::Sequence(vec![
        ASTNode::FunctionDef {
            name: "add".to_string(),
            params: vec!["a".to_string(), "b".to_string()],
            body: Box::new(ASTNode::Return(Box::new(Expr::Add(
                Box::new(Expr::Variable("a".to_string())),
                Box::new(Expr::Variable("b".to_string())),
            )))),
        },
        ASTNode::Return(Box::new(Expr::Call(
            "add".to_string(),
            vec![Expr::Number(2), Expr::Number(3)],
        ))),
    ]);
    let instructions = generate_instructions(&ast).unwrap();
    assert_eq!(
        instructions,
        vec![
            Instruction::ENT(2),
            Instruction::LEA(0),
            Instruction::LI,
            Instruction::LEA(1),
            Instruction::LI,
            Instruction::ADD,
            Instruction::PSH,
            Instruction::EXIT,
            Instruction::IMM(2),
            Instruction::IMM(3),
            Instruction::JSR(1),
            Instruction::PSH,
            Instruction::EXIT,
        ]
    );
}

#[test]
fn test_unresolved_call_is_rejected_with_name() {
    let ast = ASTNode::Sequence(vec![ASTNode::Return(Box::new(Expr::Call(
        "missing".to_string(),
        vec![],
    )))]);
    assert_eq!(
        generate_instructions(&ast),
        Err(CodegenError::UnresolvedCall("missing".to_string()))
    );
}

#[test]
fn test_undeclared_variable_is_rejected_with_name() {
    let ast = ASTNode::Sequence(vec![ASTNode::Return(Box::new(Expr::Var("x".to_string())))]);
    assert_eq!(
        generate_instructions(&ast),
        Err(CodegenError::UndeclaredVariable("x".to_string()))
    );
}

#[test]
fn test_assignment_to_undeclared_is_rejected_with_name() {
    let ast = ASTNode::Sequence(vec![ASTNode::Assignment(
        "y".to_string(),
        Box::new(Expr::Number(1)),
    )]);
    assert_eq!(
        generate_instructions(&ast),
        Err(CodegenError::AssignmentToUndeclared("y".to_string()))
    );
}

#[test]
fn test_only_function_defs_compiles_to_trivial_program() {
    let ast = ASTNode::Sequence(vec![ASTNode::FunctionDef {
        name: "f".to_string(),
        params: vec![],
        body: Box::new(ASTNode::Return(Box::new(Expr::Number(1)))),
    }]);
    assert_eq!(
        generate_instructions(&ast).unwrap(),
        vec![Instruction::IMM(0), Instruction::EXIT]
    );
}

#[test]
fn test_parse_without_main_is_rejected() {
    let tokens = tokenize("int foo() { return 1; }");
    assert_eq!(parse(&tokens), Err(ParseError::MissingMain));
}

#[test]
fn test_parse_unexpected_token_in_body() {
    let tokens = tokenize("int main() { + }");
    assert_eq!(parse(&tokens), Err(ParseError::UnexpectedToken));
}

#[test]
fn test_vm_stack_underflow_fault() {
    let mut vm = VM::new(vec![Instruction::ADD]);
    assert_eq!(vm.run(FUEL), RunOutcome::Fault(VmFault::StackUnderflow));
}

#[test]
fn test_vm_pc_out_of_bounds_fault() {
    let mut vm = VM::new(vec![Instruction::IMM(1)]);
    assert_eq!(vm.run(FUEL), RunOutcome::Fault(VmFault::PcOutOfBounds));
}

#[test]
fn test_vm_division_by_zero_fault() {
    let mut vm = VM::new(vec![Instruction::IMM(1), Instruction::IMM(0), Instruction::DIV]);
    assert_eq!(vm.run(FUEL), RunOutcome::Fault(VmFault::DivisionByZero));
}

#[test]
fn test_vm_overflow_fault() {
    let mut vm = VM::new(vec![
        Instruction::IMM(i64::MAX),
        Instruction::IMM(1),
        Instruction::ADD,
    ]);
    assert_eq!(vm.run(FUEL), RunOutcome::Fault(VmFault::ArithmeticOverflow));
}

#[test]
fn test_vm_step_budget_runs_out() {
    let mut vm = VM::new(vec![Instruction::JMP(0)]);
    assert_eq!(vm.run(10), RunOutcome::OutOfSteps);
    assert!(vm.running);
}

#[test]
fn test_vm_call_balance_restores_height() {
    // height before JSR is 0; after the callee's LEV it is 0 again
    let mut vm = VM::new(vec![
        Instruction::JSR(2),
        Instruction::EXIT,
        Instruction::ENT(0),
        Instruction::LEV,
    ]);
    assert_eq!(vm.run(FUEL), RunOutcome::Halted);
    assert!(vm.stack.is_empty());
}

#[test]
fn test_vm_truncating_division_and_remainder() {
    let mut vm1 = VM::new(vec![
        Instruction::IMM(-7),
        Instruction::IMM(2),
        Instruction::DIV,
        Instruction::EXIT,
    ]);
    vm1.run(FUEL);
    assert_eq!(vm1.stack, vec![-3]);

    let mut vm2 = VM::new(vec![
        Instruction::IMM(-7),
        Instruction::IMM(2),
        Instruction::MOD,
        Instruction::EXIT,
    ]);
    vm2.run(FUEL);
    assert_eq!(vm2.stack, vec![-1]);
}

#[test]
fn test_vm_adj_discards_values() {
    let mut vm = VM::new(vec![
        Instruction::IMM(1),
        Instruction::IMM(2),
        Instruction::IMM(3),
        Instruction::ADJ(2),
        Instruction::EXIT,
    ]);
    vm.run(FUEL);
    assert_eq!(vm.stack, vec![1]);
}

#[test]
fn test_vm_byte_store_and_load_mask() {
    let mut vm = VM::new(vec![
        Instruction::ENT(1),
        Instruction::LEA(0),
        Instruction::IMM(0x1FF),
        Instruction::SC,
        Instruction::LEA(0),
        Instruction::LC,
        Instruction::EXIT,
    ]);
    vm.run(FUEL);
    assert_eq!(vm.stack, vec![0xFF]);
}

#[test]
fn test_enable_trace_sets_flag() {
    let mut vm = VM::new(vec![Instruction::EXIT]);
    assert!(!vm.trace);
    vm.enable_trace();
    assert!(vm.trace);
}

#[test]
fn test_generate_instructions_from_ast_fixed_program() {
    assert_eq!(
        generate_instructions_from_ast(true),
        vec![
            Instruction::IMM(7),
            Instruction::IMM(8),
            Instruction::ADD,
            Instruction::EXIT,
        ]
    );
}

#[test]
fn test_lexer_comments_and_preprocessor_lines() {
    assert_eq!(
        tokenize("a // comment\nb"),
        vec![
            Token::Identifier("a".to_string()),
            Token::Identifier("b".to_string()),
        ]
    );
    assert_eq!(
        tokenize("a /* comment */ b"),
        vec![
            Token::Identifier("a".to_string()),
            Token::Identifier("b".to_string()),
        ]
    );
    assert_eq!(
        tokenize("#include <stdio.h>\nint x"),
        vec![Token::Int, Token::Identifier("x".to_string())]
    );
    assert_eq!(
        tokenize("6 / 2"),
        vec![Token::Number(6), Token::Div, Token::Number(2)]
    );
}

#[test]
fn test_lexer_string_escapes_and_unknown() {
    assert_eq!(
        tokenize("\"a\\tb\\\\c\""),
        vec![Token::StringLiteral("a\tb\\c".to_string())]
    );
    assert_eq!(tokenize("@"), vec![Token::Unknown('@')]);
}

#[test]
fn test_parse_unexpected_end() {
    // the statement is cut off before its semicolon
    let tokens = tokenize("int main() { return 1");
    assert_eq!(parse(&tokens), Err(ParseError::UnexpectedEnd));
}

#[test]
fn test_parse_printf_needs_string_literal() {
    let tokens = tokenize("int main() { printf(42); }");
    assert_eq!(parse(&tokens), Err(ParseError::ExpectedStringLiteral));
}

#[test]
fn test_vm_address_out_of_range_fault() {
    // LI with an address beyond the stack
    let mut vm = VM::new(vec![Instruction::IMM(5), Instruction::LI]);
    assert_eq!(vm.run(FUEL), RunOutcome::Fault(VmFault::AddressOutOfRange));

    // a negative address faults the same way
    let mut vm2 = VM::new(vec![Instruction::IMM(-1), Instruction::LI]);
    assert_eq!(vm2.run(FUEL), RunOutcome::Fault(VmFault::AddressOutOfRange));
}

#[test]
fn test_vm_empty_program_faults_immediately() {
    let mut vm = VM::new(vec![]);
    assert_eq!(vm.run(FUEL), RunOutcome::Fault(VmFault::PcOutOfBounds));
}

#[test]
fn test_lexer_empty_source() {
    assert_eq!(tokenize(""), Vec::<Token>::new());
}
