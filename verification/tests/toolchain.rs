//! The compiler and machine exercised end to end: lexing, parsing, code
//! generation, and direct instruction-level runs.

use c4rust::codegen::{generate_instructions, ASTNode, Expr};
use c4rust::lexer::{tokenize, Token};
use c4rust::parser::parse;
use c4rust::vm::{Instruction, VM};

const FUEL: usize = 100_000;

#[test]
fn test_tokenizer() {
    //verify basic tokens from a simple function definition
    let src = "int main() { return 42; }";
    let tokens = tokenize(src);

    assert_eq!(tokens[0], Token::Int);
    assert_eq!(tokens[1], Token::Identifier("main".to_string()));
    assert_eq!(tokens[2], Token::LParen);
    assert_eq!(tokens[3], Token::RParen);
    assert_eq!(tokens[4], Token::LBrace);
    assert_eq!(tokens[5], Token::Return);
    assert_eq!(tokens[6], Token::Number(42));
    assert_eq!(tokens[7], Token::Semicolon);
    assert_eq!(tokens[8], Token::RBrace);
}

#[test]
fn test_vm_add() {
    //check that ADD instruction computes stack top values correctly
    let program = vec![
        Instruction::IMM(2),
        Instruction::IMM(3),
        Instruction::ADD,
        Instruction::EXIT,
    ];

    let mut vm = VM::new(program);
    vm.run(FUEL);

    assert_eq!(vm.stack, vec![5]);
}

#[test]
fn test_vm_bz_branching() {
    //check BZ skips instructions when top of stack equals zero
    let program = vec![
        Instruction::IMM(0),
        Instruction::BZ(5),
        Instruction::IMM(99),
        Instruction::IMM(100),
        Instruction::ADD,
        Instruction::IMM(42),
        Instruction::EXIT,
    ];

    let mut vm = VM::new(program);
    vm.run(FUEL);

    assert_eq!(vm.stack, vec![42]);
}

#[test]
fn test_vm_bnz_branching() {
    //check BNZ skips when top of stack is non-zero
    let program = vec![
        Instruction::IMM(1),
        Instruction::BNZ(5),
        Instruction::IMM(99),
        Instruction::IMM(100),
        Instruction::ADD,
        Instruction::IMM(88),
        Instruction::EXIT,
    ];

    let mut vm = VM::new(program);
    vm.run(FUEL);

    assert_eq!(vm.stack, vec![88]);
}

#[test]
fn test_vm_function_call() {
    //check JSR and LEV manage function call and return value
    let program = vec![
        Instruction::JSR(4),
        Instruction::IMM(42),
        Instruction::PSH,
        Instruction::EXIT,
        Instruction::ENT(0),
        Instruction::LEV,
    ];

    let mut vm = VM::new(program);
    vm.run(FUEL);

    assert_eq!(vm.stack.last(), Some(&42));
}

#[test]
fn test_vm_memory_access() {
    //test LEA, SI, and LI for local variable storage and retrieval
    let program = vec![
        Instruction::ENT(2),
        Instruction::LEA(0),
        Instruction::IMM(99),
        Instruction::SI,
        Instruction::LEA(0),
        Instruction::LI,
        Instruction::EXIT,
    ];

    let mut vm = VM::new(program);
    vm.run(FUEL);

    assert_eq!(vm.stack.last(), Some(&99));
}

#[test]
fn test_vm_syscall_stubs() {
    //validate that placeholder syscalls pushes dummy values
    let program = vec![
        Instruction::IMM(100),
        Instruction::IMM(1),
        Instruction::MALC,
        Instruction::IMM(3),
        Instruction::CLOS,
        Instruction::EXIT,
    ];

    let mut vm = VM::new(program);
    vm.run(FUEL);

    assert_eq!(vm.stack, vec![0, 0x1000, 0]);
}

#[test]
fn test_parser_return_add() {
    //parse a return statement with an expression 2+3
    let tokens = tokenize("int main() { return 2 + 3; }");
    let ast = parse(&tokens).unwrap();
    assert_eq!(
        ast,
        ASTNode::Sequence(vec![ASTNode::Return(Box::new(Expr::Add(
            Box::new(Expr::Number(2)),
            Box::new(Expr::Number(3))
        )))])
    );
}

#[test]
fn test_codegen_add() {
    //ensure generate_instructions outputs correct sequence for 2+3
    let ast = ASTNode::Sequence(vec![ASTNode::Return(Box::new(Expr::Add(
        Box::new(Expr::Number(2)),
        Box::new(Expr::Number(3)),
    )))]);

    let instructions = generate_instructions(&ast).unwrap();

    assert_eq!(
        instructions,
        vec![
            Instruction::ENT(0),
            Instruction::IMM(2),
            Instruction::IMM(3),
            Instruction::ADD,
            Instruction::PSH,
            Instruction::EXIT,
        ]
    );
}

#[test]
fn test_parser_add_multiply() {
    //verify parser handles precedence: 1 + 2 * 3
    let tokens = tokenize("int main() { return 1 + 2 * 3; }");
    let ast = parse(&tokens).unwrap();

    assert_eq!(
        ast,
        ASTNode::Sequence(vec![ASTNode::Return(Box::new(Expr::Add(
            Box::new(Expr::Number(1)),
            Box::new(Expr::Mul(
                Box::new(Expr::Number(2)),
                Box::new(Expr::Number(3)),
            ))
        )))])
    );
}

#[test]
fn test_parser_with_parentheses() {
    //check parser respects parentheses: (1 + 2) * 3
    let tokens = tokenize("int main() { return (1 + 2) * 3; }");
    let ast = parse(&tokens).unwrap();

    assert_eq!(
        ast,
        ASTNode::Sequence(vec![ASTNode::Return(Box::new(Expr::Mul(
            Box::new(Expr::Add(
                Box::new(Expr::Number(1)),
                Box::new(Expr::Number(2))
            )),
            Box::new(Expr::Number(3))
        )))])
    );
}

#[test]
fn test_nested_parentheses_expression() {
    //test nested parentheses expression evaluation
    let tokens = tokenize("int main() { return (1 + 2) * (4 - 1); }");
    let ast = parse(&tokens).unwrap();

    assert_eq!(
        ast,
        ASTNode::Sequence(vec![ASTNode::Return(Box::new(Expr::Mul(
            Box::new(Expr::Add(
                Box::new(Expr::Number(1)),
                Box::new(Expr::Number(2))
            )),
            Box::new(Expr::Sub(
                Box::new(Expr::Number(4)),
                Box::new(Expr::Number(1))
            ))
        )))])
    );
}

#[test]
fn test_tokenizer_assignment_and_equality() {
    //test tokenizer for assignment and equality operators
    let tokens = tokenize("int x = 5; if (x == 5) { return x; }");

    let expected = vec![
        Token::Int,
        Token::Identifier("x".to_string()),
        Token::Assign,
        Token::Number(5),
        Token::Semicolon,
        Token::If,
        Token::LParen,
        Token::Identifier("x".to_string()),
        Token::Equal,
        Token::Number(5),
        Token::RParen,
        Token::LBrace,
        Token::Return,
        Token::Identifier("x".to_string()),
        Token::Semicolon,
        Token::RBrace,
    ];

    assert_eq!(tokens, expected);
}

#[test]
fn test_var_decl_and_return() {
    //test variable declaration and return statement
    let tokens = tokenize("int main() { int x = 5; return x; }");
    let ast = parse(&tokens).unwrap();
    let instructions = generate_instructions(&ast).unwrap();
    let mut vm = VM::new(instructions);
    vm.run(FUEL);

    assert_eq!(vm.stack.last(), Some(&5));
}

#[test]
fn test_parser_print_statement() {
    //test print statement parsing
    let src = r#"int main() { printf("hey\n"); return 0; }"#;
    let tokens = tokenize(src);
    let ast = parse(&tokens).unwrap();
    assert_eq!(
        ast,
        ASTNode::Sequence(vec![
            //printf("hey\n");
            ASTNode::Print("hey\n".to_string()),
            //return 0;
            ASTNode::Return(Box::new(Expr::Number(0))),
        ])
    );
}

#[test]
fn test_vm_division() {
    //check that DIV instruction divides correctly
    let program = vec![
        Instruction::IMM(10),
        Instruction::IMM(2),
        Instruction::DIV,
        Instruction::EXIT,
    ];
    let mut vm = VM::new(program);
    vm.run(FUEL);
    assert_eq!(vm.stack, vec![5]);
}

#[test]
fn test_vm_modulus() {
    //check that MOD instruction computes remainder correctly
    let program = vec![
        Instruction::IMM(10),
        Instruction::IMM(3),
        Instruction::MOD,
        Instruction::EXIT,
    ];
    let mut vm = VM::new(program);
    vm.run(FUEL);
    assert_eq!(vm.stack, vec![1]);
}

#[test]
fn test_vm_comparisons() {
    // LT: 3 < 5 => 1
    let mut vm1 = VM::new(vec![
        Instruction::IMM(3),
        Instruction::IMM(5),
        Instruction::LT,
        Instruction::EXIT,
    ]);
    vm1.run(FUEL);
    assert_eq!(vm1.stack, vec![1]);

    // EQ: 5 == 5 => 1
    let mut vm2 = VM::new(vec![
        Instruction::IMM(5),
        Instruction::IMM(5),
        Instruction::EQ,
        Instruction::EXIT,
    ]);
    vm2.run(FUEL);
    assert_eq!(vm2.stack, vec![1]);

    // GT: 6 > 5 => 1
    let mut vm3 = VM::new(vec![
        Instruction::IMM(6),
        Instruction::IMM(5),
        Instruction::GT,
        Instruction::EXIT,
    ]);
    vm3.run(FUEL);
    assert_eq!(vm3.stack, vec![1]);
}

#[test]
fn test_codegen_print_instruction() {
    //ensure codegen emits a PrintfStr for Print nodes, then a return
    let ast = ASTNode::Sequence(vec![
        ASTNode::Print("foo\n".to_string()),
        ASTNode::Return(Box::new(Expr::Number(0))),
    ]);
    let ins = generate_instructions(&ast).unwrap();
    assert_eq!(
        ins,
        vec![
            Instruction::ENT(0),
            Instruction::PrintfStr("foo\n".to_string()),
            Instruction::IMM(0),
            Instruction::PSH,
            Instruction::EXIT,
        ]
    );
}

#[test]
fn test_parser_division_and_modulo() {
    //verify parser handles 10 / 2 % 3 with correct AST structure
    let tokens = tokenize("int main() { return 10 / 2 % 3; }");
    let ast = parse(&tokens).unwrap();
    assert_eq!(
        ast,
        ASTNode::Sequence(vec![ASTNode::Return(Box::new(Expr::Mod(
            Box::new(Expr::Div(
                Box::new(Expr::Number(10)),
                Box::new(Expr::Number(2))
            )),
            Box::new(Expr::Number(3))
        )))])
    );
}

#[test]
fn test_parser_declaration_and_assignment() {
    let src = "int main() { int x = 5; x = 10; return x; }";
    let tokens = tokenize(src);
    let ast = parse(&tokens).unwrap();

    assert_eq!(
        ast,
        ASTNode::Sequence(vec![
            ASTNode::Declaration("x".to_string(), Box::new(Expr::Number(5))),
            ASTNode::Assignment("x".to_string(), Box::new(Expr::Number(10))),
            ASTNode::Return(Box::new(Expr::Var("x".to_string()))),
        ])
    );
}
