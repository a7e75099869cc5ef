use my_lang::ast::{Ast, Program, Statement};
use my_lang::machine::Instruction;
use my_lang::parser::Parser;
use my_lang::tokenizer::Tokenizer;

fn program_of(src: &str) -> Program {
    let tokens = Tokenizer::new(src.chars().collect()).tokenize().unwrap();
    Parser::new(tokens).parse().unwrap()
}

/// Runs a listing on a stack machine with 64-bit registers and returns, for
/// each statement, the value that its closing `pop %rax` takes.
fn execute(code: &[Instruction]) -> Vec<i64> {
    let mut stack: Vec<i64> = Vec::new();
    let (mut rax, mut rbx) = (0i64, 0i64);
    let mut results = Vec::new();
    for ins in code {
        match ins {
            Instruction::PushLiteral(lit) => stack.push(lit.parse().unwrap()),
            Instruction::PushRax => stack.push(rax),
            Instruction::PopRax => {
                rax = stack.pop().unwrap();
                results.push(rax);
            }
            Instruction::PopLeftOperand => rax = stack.pop().unwrap(),
            Instruction::PopRightOperand => rbx = stack.pop().unwrap(),
            Instruction::Add => rax += rbx,
            Instruction::Sub => rax -= rbx,
            Instruction::Mul => rax *= rbx,
            Instruction::Div => rax /= rbx,
            _ => {}
        }
    }
    results
}

fn evaluate(src: &str) -> Vec<i64> {
    let mut code = Vec::new();
    program_of(src).generate_code(&mut code);
    execute(&code)
}

fn statement_code(src: &str) -> Vec<Instruction> {
    let program = program_of(src);
    let mut code = Vec::new();
    program.statements()[0].generate_code(&mut code);
    code
}

#[test]
fn sum_with_product_evaluates_to_fourteen() {
    assert_eq!(evaluate("2+3*4;"), vec![14]);
}

#[test]
fn product_then_sum_evaluates_to_ten() {
    assert_eq!(evaluate("2*3+4;"), vec![10]);
}

#[test]
fn parenthesised_sum_times_three_is_nine() {
    assert_eq!(evaluate("(1+2)*3;"), vec![9]);
}

#[test]
fn chained_subtraction_evaluates_to_three() {
    assert_eq!(evaluate("8-3-2;"), vec![3]);
}

#[test]
fn chained_division_is_left_to_right() {
    assert_eq!(evaluate("8/4/2;"), vec![1]);
    assert_eq!(evaluate("100-8/4/2*3;"), vec![97]);
}

#[test]
fn each_statement_yields_its_value() {
    assert_eq!(evaluate("1;2*(3-1);10/5-1;"), vec![1, 4, 1]);
}

#[test]
fn push_and_operator_counts_match_tree() {
    let code = statement_code("(1+2)*3-4/2;");
    let pushes = code.iter().filter(|i| matches!(i, Instruction::PushLiteral(_))).count();
    let ops = code
        .iter()
        .filter(|i| matches!(i, Instruction::Add | Instruction::Sub | Instruction::Mul | Instruction::Div))
        .count();
    assert_eq!(pushes, 5);
    assert_eq!(ops, 4);
}

#[test]
fn single_literal_statement_code() {
    assert_eq!(
        statement_code("7;"),
        vec![Instruction::PushLiteral("7".to_string()), Instruction::PopRax]
    );
}

#[test]
fn operator_code_pops_right_then_left() {
    assert_eq!(
        statement_code("5-2;"),
        vec![
            Instruction::PushLiteral("5".to_string()),
            Instruction::PushLiteral("2".to_string()),
            Instruction::PopRightOperand,
            Instruction::PopLeftOperand,
            Instruction::Sub,
            Instruction::PushRax,
            Instruction::PopRax,
        ]
    );
}

#[test]
fn listing_has_prologue_and_epilogue() {
    let mut code = Vec::new();
    program_of("1+2;").generate_code(&mut code);
    let lines: Vec<String> = code.iter().map(|i| i.to_text()).collect();
    assert_eq!(
        lines,
        vec![
            "  .text",
            ".global _main",
            "",
            "_main:",
            "  push $1",
            "  push $2",
            "  pop  %rbx",
            "  pop  %rax",
            "  add %rbx, %rax",
            "  push %rax",
            "  pop %rax",
            "  ret",
        ]
    );
}

#[test]
fn empty_program_listing() {
    let mut code = Vec::new();
    Program::new().generate_code(&mut code);
    assert_eq!(
        code,
        vec![
            Instruction::TextSection,
            Instruction::GlobalMain,
            Instruction::Blank,
            Instruction::MainLabel,
            Instruction::Ret,
        ]
    );
}

#[test]
fn instruction_text() {
    assert_eq!(Instruction::PushLiteral("123".to_string()).to_text(), "  push $123");
    assert_eq!(Instruction::Mul.to_text(), "  mul %rbx");
    assert_eq!(Instruction::Div.to_text(), "  div %rbx");
    assert_eq!(Instruction::Sub.to_text(), "  sub %rbx, %rax");
    assert_eq!(Instruction::PopRightOperand.to_text(), "  pop  %rbx");
    assert_eq!(Instruction::PopLeftOperand.to_text(), "  pop  %rax");
    assert_eq!(Instruction::PopRax.to_text(), "  pop %rax");
}

#[test]
fn generate_code_appends() {
    let mut code = vec![Instruction::Ret];
    let program = program_of("3;");
    match &program.statements()[0] {
        Statement::Arithmetic(a) => a.generate_code(&mut code),
    }
    assert_eq!(code, vec![Instruction::Ret, Instruction::PushLiteral("3".to_string())]);
}
