use vstd::prelude::*;
use vstd::string::StringExecFns;
use crate::ast::{apply_op, digits_value, Operator};

verus! {

/// One line of the listing for a stack machine with two 64-bit registers.
#[derive(Debug, PartialEq, Eq)]
pub enum Instruction {
    /// `.text`, the section directive that opens the listing.
    TextSection,
    /// `.global _main`
    GlobalMain,
    /// An empty line.
    Blank,
    /// `_main:`
    MainLabel,
    /// `push $<digits>`: pushes an integer literal.
    PushLiteral(String),
    /// `push %rax`
    PushRax,
    /// `pop %rax`: takes the value of a finished statement.
    PopRax,
    /// `pop  %rbx`: takes the right operand of an operator.
    PopRightOperand,
    /// `pop  %rax`: takes the left operand of an operator.
    PopLeftOperand,
    /// `add %rbx, %rax`
    Add,
    /// `sub %rbx, %rax`
    Sub,
    /// `mul %rbx`
    Mul,
    /// `div %rbx`
    Div,
    /// `ret`
    Ret,
}

/// The text of an instruction in the listing.
pub open spec fn listing_text(ins: Instruction) -> Seq<char> {
    match ins {
        Instruction::TextSection => "  .text"@,
        Instruction::GlobalMain => ".global _main"@,
        Instruction::Blank => ""@,
        Instruction::MainLabel => "_main:"@,
        Instruction::PushLiteral(lit) => "  push $"@ + lit@,
        Instruction::PushRax => "  push %rax"@,
        Instruction::PopRax => "  pop %rax"@,
        Instruction::PopRightOperand => "  pop  %rbx"@,
        Instruction::PopLeftOperand => "  pop  %rax"@,
        Instruction::Add => "  add %rbx, %rax"@,
        Instruction::Sub => "  sub %rbx, %rax"@,
        Instruction::Mul => "  mul %rbx"@,
        Instruction::Div => "  div %rbx"@,
        Instruction::Ret => "  ret"@,
    }
}

impl Instruction {
    pub fn to_text(&self) -> (r: String)
        ensures
            r@ == listing_text(*self),
    {
        match self {
            Instruction::TextSection => "  .text".to_owned(),
            Instruction::GlobalMain => ".global _main".to_owned(),
            Instruction::Blank => "".to_owned(),
            Instruction::MainLabel => "_main:".to_owned(),
            Instruction::PushLiteral(lit) => "  push $".to_owned().concat(lit.as_str()),
            Instruction::PushRax => "  push %rax".to_owned(),
            Instruction::PopRax => "  pop %rax".to_owned(),
            Instruction::PopRightOperand => "  pop  %rbx".to_owned(),
            Instruction::PopLeftOperand => "  pop  %rax".to_owned(),
            Instruction::Add => "  add %rbx, %rax".to_owned(),
            Instruction::Sub => "  sub %rbx, %rax".to_owned(),
            Instruction::Mul => "  mul %rbx".to_owned(),
            Instruction::Div => "  div %rbx".to_owned(),
            Instruction::Ret => "  ret".to_owned(),
        }
    }
}

/// The instruction that applies `op` to `rax` (left operand) and `rbx`
/// (right operand), leaving the result in `rax`.
pub open spec fn operator_instruction(op: Operator) -> Instruction {
    match op {
        Operator::Plus => Instruction::Add,
        Operator::Minus => Instruction::Sub,
        Operator::Mul => Instruction::Mul,
        Operator::Div => Instruction::Div,
    }
}

/// The state of the stack machine, over mathematical integers.
pub struct Machine {
    pub stack: Seq<int>,
    pub rax: int,
    pub rbx: int,
}

/// What one instruction does. Directives and `ret` change nothing.
pub open spec fn step(m: Machine, ins: Instruction) -> Machine {
    match ins {
        Instruction::PushLiteral(lit) => Machine {
            stack: m.stack.push(digits_value(lit@)),
            rax: m.rax,
            rbx: m.rbx,
        },
        Instruction::PushRax => Machine { stack: m.stack.push(m.rax), rax: m.rax, rbx: m.rbx },
        Instruction::PopRax | Instruction::PopLeftOperand => Machine {
            stack: m.stack.drop_last(),
            rax: m.stack.last(),
            rbx: m.rbx,
        },
        Instruction::PopRightOperand => Machine {
            stack: m.stack.drop_last(),
            rax: m.rax,
            rbx: m.stack.last(),
        },
        Instruction::Add => Machine {
            stack: m.stack,
            rax: apply_op(Operator::Plus, m.rax, m.rbx),
            rbx: m.rbx,
        },
        Instruction::Sub => Machine {
            stack: m.stack,
            rax: apply_op(Operator::Minus, m.rax, m.rbx),
            rbx: m.rbx,
        },
        Instruction::Mul => Machine {
            stack: m.stack,
            rax: apply_op(Operator::Mul, m.rax, m.rbx),
            rbx: m.rbx,
        },
        Instruction::Div => Machine {
            stack: m.stack,
            rax: apply_op(Operator::Div, m.rax, m.rbx),
            rbx: m.rbx,
        },
        _ => m,
    }
}

/// Runs the instructions in order.
pub open spec fn run(m: Machine, code: Seq<Instruction>) -> Machine
    decreases code.len(),
{
    if code.len() == 0 {
        m
    } else {
        run(step(m, code[0]), code.drop_first())
    }
}

pub proof fn lemma_run_append(m: Machine, a: Seq<Instruction>, b: Seq<Instruction>)
    ensures
        run(m, a + b) == run(run(m, a), b),
    decreases a.len(),
{
    if a.len() == 0 {
        assert(a + b =~= b);
    } else {
        assert((a + b).drop_first() =~= a.drop_first() + b);
        lemma_run_append(step(m, a[0]), a.drop_first(), b);
    }
}

pub open spec fn is_literal_push(ins: Instruction) -> bool {
    ins is PushLiteral
}

pub open spec fn is_arithmetic(ins: Instruction) -> bool {
    ins is Add || ins is Sub || ins is Mul || ins is Div
}

/// How many literals the code pushes.
pub open spec fn literal_push_count(code: Seq<Instruction>) -> nat {
    code.filter(|i: Instruction| is_literal_push(i)).len()
}

/// How many arithmetic instructions the code holds.
pub open spec fn arithmetic_count(code: Seq<Instruction>) -> nat {
    code.filter(|i: Instruction| is_arithmetic(i)).len()
}

} // verus!
