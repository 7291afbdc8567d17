//! Every error kind, with an input that raises it.

use arith_eval::token::{MathError, MathToken, Tokens};

#[test]
fn unclosed_paren_is_unbalanced() {
    assert!(matches!(
        Tokens::handle("(1+2"),
        Err(MathError::UnbalancedParentheses(_))
    ));
}

#[test]
fn stray_closing_paren_is_unbalanced() {
    assert!(matches!(
        Tokens::handle("1+2)"),
        Err(MathError::UnbalancedParentheses(_))
    ));
}

#[test]
fn unbalanced_error_carries_the_infix_tokens() {
    match Tokens::handle(")") {
        Err(MathError::UnbalancedParentheses(tokens)) => {
            assert_eq!(tokens.len(), 1);
            assert!(matches!(tokens[0], MathToken::Oper(_)));
        }
        other => panic!("expected UnbalancedParentheses, got {:?}", other),
    }
}

#[test]
fn two_literals_without_operator_are_malformed() {
    assert!(matches!(
        Tokens::handle("1 2"),
        Err(MathError::MalformedExpression(_))
    ));
}

#[test]
fn empty_line_is_malformed() {
    assert!(matches!(
        Tokens::handle(""),
        Err(MathError::MalformedExpression(_))
    ));
}

#[test]
fn line_of_only_skipped_characters_is_malformed() {
    assert!(matches!(
        Tokens::handle(" = = "),
        Err(MathError::MalformedExpression(_))
    ));
}

#[test]
fn surplus_operator_underflows_the_stack() {
    assert!(matches!(
        Tokens::handle("1++2"),
        Err(MathError::StackUnderflow(_))
    ));
}

#[test]
fn lone_operator_underflows_the_stack() {
    assert!(matches!(
        Tokens::handle("+"),
        Err(MathError::StackUnderflow(_))
    ));
}

#[test]
fn unsupported_character_is_cited() {
    assert_eq!(
        Tokens::handle("1 @ 2"),
        Err(MathError::UnsupportedCharacter('@'))
    );
}

#[test]
fn unsupported_letter_is_cited() {
    assert_eq!(
        Tokens::handle("2x"),
        Err(MathError::UnsupportedCharacter('x'))
    );
}

#[test]
fn invalid_literal_is_cited() {
    assert_eq!(
        Tokens::handle("1.2.3"),
        Err(MathError::InvalidNumberLiteral("1.2.3".to_string()))
    );
}

#[test]
fn lone_dot_is_an_invalid_literal() {
    assert_eq!(
        Tokens::handle("."),
        Err(MathError::InvalidNumberLiteral(".".to_string()))
    );
}

#[test]
fn lexer_error_wins_over_later_stages() {
    // The pipeline short-circuits at the first failing stage.
    assert_eq!(
        Tokens::handle("(1+2.3.4"),
        Err(MathError::InvalidNumberLiteral("2.3.4".to_string()))
    );
}
