//! The operator alphabet: the four arithmetic symbols and the two
//! parentheses, with their precedences.

use vstd::prelude::*;

verus! {

/// One of the six operator symbols an input line may contain.
#[derive(Copy, Clone, PartialEq, Eq, Structural, Debug)]
pub enum Op {
    Add,
    Sub,
    Mul,
    Div,
    ParOpen,
    ParClose,
}

/// The characters that stand for an operator.
pub open spec fn is_op_char(c: char) -> bool {
    c == '+' || c == '-' || c == '*' || c == '/' || c == '(' || c == ')'
}

/// The operator a given operator character stands for.
pub open spec fn op_of_char(c: char) -> Op {
    if c == '+' {
        Op::Add
    } else if c == '-' {
        Op::Sub
    } else if c == '*' {
        Op::Mul
    } else if c == '/' {
        Op::Div
    } else if c == '(' {
        Op::ParOpen
    } else {
        Op::ParClose
    }
}

/// Binding strength: parentheses bind weakest, `+`/`-` next, `*`/`/` strongest.
pub open spec fn spec_precedence(op: Op) -> int {
    match op {
        Op::ParOpen | Op::ParClose => 0,
        Op::Add | Op::Sub => 1,
        Op::Mul | Op::Div => 2,
    }
}

/// Whether the operator is one of the four arithmetic kinds, as opposed to a
/// parenthesis.
pub open spec fn is_arith(op: Op) -> bool {
    match op {
        Op::ParOpen | Op::ParClose => false,
        Op::Add | Op::Sub | Op::Mul | Op::Div => true,
    }
}

impl Op {
    /// The operator a given operator character stands for.
    pub fn from_char(ch: char) -> (r: Self)
        requires
            is_op_char(ch),
        ensures
            r == op_of_char(ch),
    {
        match ch {
            '+' => Op::Add,
            '-' => Op::Sub,
            '*' => Op::Mul,
            '/' => Op::Div,
            '(' => Op::ParOpen,
            _ => Op::ParClose,
        }
    }

    /// Binding strength of the operator.
    pub fn precedence(&self) -> (p: u8)
        ensures
            p as int == spec_precedence(*self),
    {
        match self {
            Op::ParOpen | Op::ParClose => 0,
            Op::Add | Op::Sub => 1,
            Op::Mul | Op::Div => 2,
        }
    }

    /// Whether the operator is one of the four arithmetic kinds.
    pub fn is_arithmetic(&self) -> (r: bool)
        ensures
            r == is_arith(*self),
    {
        match self {
            Op::ParOpen | Op::ParClose => false,
            Op::Add | Op::Sub | Op::Mul | Op::Div => true,
        }
    }
}

} // verus!
