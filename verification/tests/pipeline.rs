//! End-to-end evaluations: an input line, the expression tree it denotes,
//! and the numeric value of that tree.

use arith_eval::eval::Expr;
use arith_eval::op::Op;
use arith_eval::token::Tokens;

/// Computes the floating-point value of an expression tree.
fn fold(e: &Expr) -> f64 {
    match e {
        Expr::Lit(s) => s.parse::<f64>().unwrap(),
        Expr::Bin(op, a, b) => {
            let x = fold(a);
            let y = fold(b);
            match op {
                Op::Add => x + y,
                Op::Sub => x - y,
                Op::Mul => x * y,
                Op::Div => x / y,
                _ => unreachable!(),
            }
        }
    }
}

/// Evaluates a line to its displayed text, three digits after the point.
fn display(line: &str) -> String {
    format!("{:.3}", fold(&Tokens::handle(line).unwrap()))
}

fn lit(s: &str) -> Box<Expr> {
    Box::new(Expr::Lit(s.to_string()))
}

#[test]
fn single_literal_integer() {
    assert_eq!(Tokens::handle("42").unwrap(), Expr::Lit("42".to_string()));
    assert_eq!(display("42"), "42.000");
}

#[test]
fn single_literal_fractional() {
    assert_eq!(Tokens::handle("3.5").unwrap(), Expr::Lit("3.5".to_string()));
    assert_eq!(display("3.5"), "3.500");
}

#[test]
fn single_literal_leading_dot() {
    assert_eq!(Tokens::handle(".25").unwrap(), Expr::Lit(".25".to_string()));
    assert_eq!(display(".25"), "0.250");
}

#[test]
fn addition() {
    assert_eq!(
        Tokens::handle("1+2").unwrap(),
        Expr::Bin(Op::Add, lit("1"), lit("2"))
    );
    assert_eq!(display("1+2"), "3.000");
}

#[test]
fn precedence_respected() {
    assert_eq!(
        Tokens::handle("2*3+4").unwrap(),
        Expr::Bin(Op::Add, Box::new(Expr::Bin(Op::Mul, lit("2"), lit("3"))), lit("4"))
    );
    assert_eq!(display("2*3+4"), "10.000");
}

#[test]
fn parentheses_override_precedence() {
    assert_eq!(
        Tokens::handle("2*(3+4)").unwrap(),
        Expr::Bin(Op::Mul, lit("2"), Box::new(Expr::Bin(Op::Add, lit("3"), lit("4"))))
    );
    assert_eq!(display("2*(3+4)"), "14.000");
}

#[test]
fn equal_precedence_is_left_to_right() {
    assert_eq!(
        Tokens::handle("10/2-3").unwrap(),
        Expr::Bin(Op::Sub, Box::new(Expr::Bin(Op::Div, lit("10"), lit("2"))), lit("3"))
    );
    assert_eq!(display("10/2-3"), "2.000");
}

#[test]
fn equal_precedence_chain_groups_from_the_right() {
    // An operator of equal precedence does not pop the stack, so the
    // second `/` stays above the first and pops after it: 8/(4/2).
    assert_eq!(display("8/4/2"), "4.000");
}

#[test]
fn division_by_zero_is_infinity_not_an_error() {
    let value = fold(&Tokens::handle("7/0").unwrap());
    assert!(value.is_infinite());
    assert!(value > 0.0);
    assert_eq!(display("7/0"), "inf");
}

#[test]
fn nested_parentheses() {
    assert_eq!(display("((1+2)*(3+4))"), "21.000");
}

#[test]
fn rerunning_the_same_line_is_identical() {
    let first = Tokens::handle("2*(3+4)-1");
    let second = Tokens::handle("2*(3+4)-1");
    assert_eq!(first, second);
}

#[test]
fn whitespace_and_equals_are_ignorable() {
    assert_eq!(Tokens::handle("1+2"), Tokens::handle(" 1 + 2 = "));
    assert_eq!(Tokens::handle("2*(3+4)"), Tokens::handle("\t2 * ( 3 + 4 )\n"));
}

#[test]
fn negative_result_display() {
    assert_eq!(display("1-4.5"), "-3.500");
}

#[test]
fn trailing_dot_literal_is_valid() {
    assert_eq!(Tokens::handle("7.").unwrap(), Expr::Lit("7.".to_string()));
    assert_eq!(display("7.+1"), "8.000");
}

#[test]
fn unicode_whitespace_is_skipped() {
    // No-break space and em space carry the White_Space property.
    assert_eq!(Tokens::handle("1\u{00A0}+\u{2003}2"), Tokens::handle("1+2"));
}
