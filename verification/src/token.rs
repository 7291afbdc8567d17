//! Tokens, token sequences, errors, and their mathematical models.

use crate::op::Op;
use vstd::prelude::*;

verus! {

/// A token of an input line: a numeric literal, carried as its text, or an
/// operator symbol.
#[derive(PartialEq, Debug)]
pub enum MathToken {
    Num(String),
    Oper(Op),
}

impl Clone for MathToken {
    /// A cloned token models the same token.
    fn clone(&self) -> (r: Self)
        ensures
            r.deep_view() == self.deep_view(),
    {
        match self {
            MathToken::Num(s) => MathToken::Num(s.clone()),
            MathToken::Oper(op) => MathToken::Oper(*op),
        }
    }
}

/// The mathematical model of a token: the literal's characters, or the
/// operator.
pub enum Tok {
    Num(Seq<char>),
    Oper(Op),
}

impl DeepView for MathToken {
    type V = Tok;

    open spec fn deep_view(&self) -> Tok {
        match self {
            MathToken::Num(s) => Tok::Num(s@),
            MathToken::Oper(op) => Tok::Oper(*op),
        }
    }
}

/// An ordered sequence of tokens, the carrier between the pipeline stages.
#[derive(PartialEq, Debug)]
pub struct Tokens(pub Vec<MathToken>);

impl DeepView for Tokens {
    type V = Seq<Tok>;

    open spec fn deep_view(&self) -> Seq<Tok> {
        self.0.deep_view()
    }
}

/// Why an input line was rejected.  Each stage fails at the first fault it
/// meets; a variant carries the offending text, character, or the token
/// sequence at the point of failure.
#[derive(PartialEq, Debug)]
pub enum MathError {
    /// A run of digits and dots that is not a number (for example `1.2.3`).
    InvalidNumberLiteral(String),
    /// A character outside digits, `.`, operators, whitespace and `=`.
    UnsupportedCharacter(char),
    /// A `)` without a matching `(`, or a `(` never closed; carries the
    /// infix token sequence.
    UnbalancedParentheses(Vec<MathToken>),
    /// An operator reached with fewer than two pending operands; carries the
    /// postfix token sequence.
    StackUnderflow(Vec<MathToken>),
    /// After evaluation the value stack held more or fewer than one value;
    /// carries the postfix token sequence.
    MalformedExpression(Vec<MathToken>),
}

/// The mathematical model of an error.
pub enum ErrModel {
    InvalidNumberLiteral(Seq<char>),
    UnsupportedCharacter(char),
    UnbalancedParentheses(Seq<Tok>),
    StackUnderflow(Seq<Tok>),
    MalformedExpression(Seq<Tok>),
}

impl DeepView for MathError {
    type V = ErrModel;

    open spec fn deep_view(&self) -> ErrModel {
        match self {
            MathError::InvalidNumberLiteral(s) => ErrModel::InvalidNumberLiteral(s@),
            MathError::UnsupportedCharacter(c) => ErrModel::UnsupportedCharacter(*c),
            MathError::UnbalancedParentheses(t) => ErrModel::UnbalancedParentheses(t.deep_view()),
            MathError::StackUnderflow(t) => ErrModel::StackUnderflow(t.deep_view()),
            MathError::MalformedExpression(t) => ErrModel::MalformedExpression(t.deep_view()),
        }
    }
}

} // verus!
