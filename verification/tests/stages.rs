//! The three stages one at a time: operators, tokenization, reordering,
//! postfix evaluation.

use arith_eval::eval::Expr;
use arith_eval::op::Op;
use arith_eval::token::{MathError, MathToken, Tokens};

fn num(s: &str) -> MathToken {
    MathToken::Num(s.to_string())
}

fn oper(op: Op) -> MathToken {
    MathToken::Oper(op)
}

#[test]
fn operator_from_char() {
    assert_eq!(Op::from_char('+'), Op::Add);
    assert_eq!(Op::from_char('-'), Op::Sub);
    assert_eq!(Op::from_char('*'), Op::Mul);
    assert_eq!(Op::from_char('/'), Op::Div);
    assert_eq!(Op::from_char('('), Op::ParOpen);
    assert_eq!(Op::from_char(')'), Op::ParClose);
}

#[test]
fn operator_precedence() {
    assert_eq!(Op::ParOpen.precedence(), 0);
    assert_eq!(Op::ParClose.precedence(), 0);
    assert_eq!(Op::Add.precedence(), 1);
    assert_eq!(Op::Sub.precedence(), 1);
    assert_eq!(Op::Mul.precedence(), 2);
    assert_eq!(Op::Div.precedence(), 2);
}

#[test]
fn operator_arithmetic_kinds() {
    assert!(Op::Add.is_arithmetic());
    assert!(Op::Sub.is_arithmetic());
    assert!(Op::Mul.is_arithmetic());
    assert!(Op::Div.is_arithmetic());
    assert!(!Op::ParOpen.is_arithmetic());
    assert!(!Op::ParClose.is_arithmetic());
}

#[test]
fn parse_splits_into_tokens() {
    let tokens = Tokens::parse("12+3.5*(4/6)").unwrap();
    assert_eq!(
        tokens.0,
        vec![
            num("12"),
            oper(Op::Add),
            num("3.5"),
            oper(Op::Mul),
            oper(Op::ParOpen),
            num("4"),
            oper(Op::Div),
            num("6"),
            oper(Op::ParClose),
        ]
    );
}

#[test]
fn parse_skips_whitespace_and_equals() {
    let tokens = Tokens::parse(" 1 =\t2 ").unwrap();
    assert_eq!(tokens.0, vec![num("1"), num("2")]);
}

#[test]
fn parse_of_empty_line_is_empty() {
    assert_eq!(Tokens::parse("").unwrap().0, vec![]);
}

#[test]
fn shunting_reorders_by_precedence() {
    let infix = Tokens::parse("2*3+4").unwrap();
    let postfix = infix.shunting().unwrap();
    assert_eq!(
        postfix.0,
        vec![num("2"), num("3"), oper(Op::Mul), num("4"), oper(Op::Add)]
    );
}

#[test]
fn shunting_discards_balanced_parentheses() {
    let infix = Tokens::parse("2*(3+4)").unwrap();
    let postfix = infix.shunting().unwrap();
    assert_eq!(
        postfix.0,
        vec![num("2"), num("3"), num("4"), oper(Op::Add), oper(Op::Mul)]
    );
}

#[test]
fn shunting_keeps_equal_precedence_in_encounter_order() {
    let infix = Tokens::parse("10/2-3").unwrap();
    let postfix = infix.shunting().unwrap();
    assert_eq!(
        postfix.0,
        vec![num("10"), num("2"), oper(Op::Div), num("3"), oper(Op::Sub)]
    );
}

#[test]
fn shunting_rejects_stray_closer() {
    let infix = Tokens(vec![num("1"), oper(Op::ParClose)]);
    assert!(matches!(
        infix.shunting(),
        Err(MathError::UnbalancedParentheses(_))
    ));
}

#[test]
fn shunting_rejects_unclosed_opener() {
    let infix = Tokens(vec![oper(Op::ParOpen), num("1")]);
    assert!(matches!(
        infix.shunting(),
        Err(MathError::UnbalancedParentheses(_))
    ));
}

#[test]
fn solve_builds_the_tree_from_postfix() {
    let postfix = Tokens(vec![num("2"), num("3"), oper(Op::Mul)]);
    assert_eq!(
        postfix.solve().unwrap(),
        Expr::Bin(
            Op::Mul,
            Box::new(Expr::Lit("2".to_string())),
            Box::new(Expr::Lit("3".to_string()))
        )
    );
}

#[test]
fn solve_underflows_on_missing_operand() {
    let postfix = Tokens(vec![num("1"), oper(Op::Add)]);
    assert!(matches!(postfix.solve(), Err(MathError::StackUnderflow(_))));
}

#[test]
fn solve_rejects_leftover_values() {
    let postfix = Tokens(vec![num("1"), num("2")]);
    assert!(matches!(
        postfix.solve(),
        Err(MathError::MalformedExpression(_))
    ));
}
