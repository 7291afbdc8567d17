//! Lexical tokenization: an input line becomes an ordered token sequence.
//!
//! The scan runs left to right.  A digit or `.` starts a greedy run of
//! digits and dots, which must form a valid number literal; an operator
//! character becomes an operator token; whitespace and `=` are skipped; any
//! other character is rejected.

use crate::op::{is_op_char, op_of_char, Op};
use crate::token::{ErrModel, MathError, MathToken, Tok, Tokens};
use vstd::prelude::*;
use vstd::string::*;

verus! {

/// A decimal digit `0`-`9`.
pub open spec fn is_digit(c: char) -> bool {
    48 <= c as u32 && c as u32 <= 57
}

/// A character that may stand inside a number literal: a digit or `.`.
pub open spec fn is_num_char(c: char) -> bool {
    is_digit(c) || c == '.'
}

/// A character with the Unicode `White_Space` property.
pub open spec fn is_whitespace_char(c: char) -> bool {
    let u = c as u32;
    (9 <= u && u <= 13)  // tab, line feed, vertical tab, form feed, carriage return
    || u == 32  // space
    || u == 133  // next line
    || u == 160  // no-break space
    || u == 0x1680  // ogham space mark
    || (0x2000 <= u && u <= 0x200A)  // en quad .. hair space
    || u == 0x2028  // line separator
    || u == 0x2029  // paragraph separator
    || u == 0x202F  // narrow no-break space
    || u == 0x205F  // medium mathematical space
    || u == 0x3000  // ideographic space
}

/// A character the lexer consumes and discards: whitespace or `=`.
pub open spec fn is_skip_char(c: char) -> bool {
    c == '=' || is_whitespace_char(c)
}

/// Length of the maximal prefix of `s` made of digits and dots.
pub open spec fn num_run_len(s: Seq<char>) -> nat
    decreases s.len(),
{
    if s.len() == 0 || !is_num_char(s[0]) {
        0
    } else {
        1 + num_run_len(s.skip(1))
    }
}

/// A maximal run never reaches past the end of the sequence.
pub proof fn lemma_num_run_len_le(s: Seq<char>)
    ensures
        num_run_len(s) <= s.len(),
    decreases s.len(),
{
    if s.len() != 0 && is_num_char(s[0]) {
        lemma_num_run_len_le(s.skip(1));
    }
}

/// How many `.` characters `s` holds.
pub open spec fn dot_count(s: Seq<char>) -> nat
    decreases s.len(),
{
    if s.len() == 0 {
        0
    } else {
        dot_count(s.drop_last()) + (if s.last() == '.' {
            1 as nat
        } else {
            0 as nat
        })
    }
}

/// How many digits `s` holds.
pub open spec fn digit_count(s: Seq<char>) -> nat
    decreases s.len(),
{
    if s.len() == 0 {
        0
    } else {
        digit_count(s.drop_last()) + (if is_digit(s.last()) {
            1 as nat
        } else {
            0 as nat
        })
    }
}

/// A run of digits and dots parses as a number exactly when it holds at
/// least one digit and at most one dot.
pub open spec fn is_valid_literal(s: Seq<char>) -> bool {
    digit_count(s) >= 1 && dot_count(s) <= 1
}

/// The tokenization of `s`: the token sequence, or the first fault met.
pub open spec fn lex(s: Seq<char>) -> Result<Seq<Tok>, ErrModel>
    decreases s.len(),
{
    if s.len() == 0 {
        Ok(Seq::empty())
    } else if is_num_char(s[0]) {
        let n = num_run_len(s) as int;
        let lit = s.take(n);
        if !is_valid_literal(lit) {
            Err(ErrModel::InvalidNumberLiteral(lit))
        } else {
            proof {
                lemma_num_run_len_le(s);
            }
            match lex(s.skip(n)) {
                Ok(toks) => Ok(seq![Tok::Num(lit)] + toks),
                Err(e) => Err(e),
            }
        }
    } else if is_op_char(s[0]) {
        match lex(s.skip(1)) {
            Ok(toks) => Ok(seq![Tok::Oper(op_of_char(s[0]))] + toks),
            Err(e) => Err(e),
        }
    } else if is_skip_char(s[0]) {
        lex(s.skip(1))
    } else {
        Err(ErrModel::UnsupportedCharacter(s[0]))
    }
}

/// Prepends already-lexed tokens to the outcome of lexing the rest.
spec fn lex_cont(acc: Seq<Tok>, rest: Result<Seq<Tok>, ErrModel>) -> Result<
    Seq<Tok>,
    ErrModel,
> {
    match rest {
        Ok(ts) => Ok(acc + ts),
        Err(e) => Err(e),
    }
}

/// The model of a whole-sequence result, for contracts.
pub open spec fn tokens_result_model(r: Result<Tokens, MathError>) -> Result<
    Seq<Tok>,
    ErrModel,
> {
    match r {
        Ok(t) => Ok(t.deep_view()),
        Err(e) => Err(e.deep_view()),
    }
}

fn is_digit_exec(c: char) -> (r: bool)
    ensures
        r == is_digit(c),
{
    let u = c as u32;
    48 <= u && u <= 57
}

fn is_num_char_exec(c: char) -> (r: bool)
    ensures
        r == is_num_char(c),
{
    is_digit_exec(c) || c == '.'
}

fn is_op_char_exec(c: char) -> (r: bool)
    ensures
        r == is_op_char(c),
{
    c == '+' || c == '-' || c == '*' || c == '/' || c == '(' || c == ')'
}

fn is_skip_char_exec(c: char) -> (r: bool)
    ensures
        r == is_skip_char(c),
{
    if c == '=' {
        true
    } else {
        let u = c as u32;
        (9 <= u && u <= 13) || u == 32 || u == 133 || u == 160 || u == 0x1680 || (0x2000 <= u && u
            <= 0x200A) || u == 0x2028 || u == 0x2029 || u == 0x202F || u == 0x205F || u == 0x3000
    }
}

impl Tokens {
    /// Tokenizes an input line, or reports the first offending literal or
    /// character.
    pub fn parse(input: &str) -> (r: Result<Tokens, MathError>)
        ensures
            tokens_result_model(r) == lex(input@),
    {
        let n = input.unicode_len();
        let mut tokens: Vec<MathToken> = Vec::new();
        let mut i: usize = 0;
        proof {
            assert(input@.skip(0) =~= input@);
            match lex(input@) {
                Ok(ts) => {
                    assert(Seq::<Tok>::empty() + ts =~= ts);
                },
                Err(_) => {},
            }
        }
        while i < n
            invariant
                n as nat == input@.len(),
                i <= n,
                lex(input@) == lex_cont(tokens.deep_view(), lex(input@.skip(i as int))),
            decreases n - i,
        {
            let c = input.get_char(i);
            if is_num_char_exec(c) {
                // Scan the maximal run of digits and dots.
                let mut j: usize = i + 1;
                proof {
                    assert(input@.skip(i as int).skip(1) =~= input@.skip(i + 1));
                }
                while j < n && is_num_char_exec(input.get_char(j))
                    invariant
                        n as nat == input@.len(),
                        i < j <= n,
                        forall|k: int| i <= k < j ==> is_num_char(input@[k]),
                        num_run_len(input@.skip(i as int)) == j - i + num_run_len(
                            input@.skip(j as int),
                        ),
                    decreases n - j,
                {
                    proof {
                        assert(input@.skip(j as int).skip(1) =~= input@.skip(j + 1));
                    }
                    j = j + 1;
                }
                proof {
                    assert(num_run_len(input@.skip(j as int)) == 0);
                    assert(num_run_len(input@.skip(i as int)) == j - i);
                }
                let lit = input.substring_char(i, j);
                proof {
                    assert(lit@ =~= input@.skip(i as int).take(j - i));
                }
                // Count digits and dots to decide whether the run is a
                // valid number literal.
                let m = j - i;
                let mut dots: usize = 0;
                let mut digits: usize = 0;
                let mut k: usize = 0;
                proof {
                    assert(lit@.take(0) =~= Seq::<char>::empty());
                }
                while k < m
                    invariant
                        lit@.len() == m as nat,
                        k <= m,
                        dots <= k,
                        digits <= k,
                        dots as nat == dot_count(lit@.take(k as int)),
                        digits as nat == digit_count(lit@.take(k as int)),
                    decreases m - k,
                {
                    let c2 = lit.get_char(k);
                    proof {
                        assert(lit@.take(k + 1).drop_last() =~= lit@.take(k as int));
                        assert(lit@.take(k + 1).last() == lit@[k as int]);
                    }
                    if c2 == '.' {
                        dots = dots + 1;
                    } else if is_digit_exec(c2) {
                        digits = digits + 1;
                    }
                    k = k + 1;
                }
                proof {
                    assert(lit@.take(m as int) =~= lit@);
                }
                let owned = String::from_str(lit);
                if digits >= 1 && dots <= 1 {
                    proof {
                        let acc = tokens.deep_view();
                        assert(input@.skip(i as int).skip(j - i) =~= input@.skip(j as int));
                        match lex(input@.skip(j as int)) {
                            Ok(ts) => {
                                assert(acc + (seq![Tok::Num(lit@)] + ts) =~= acc.push(
                                    Tok::Num(lit@),
                                ) + ts);
                            },
                            Err(_) => {},
                        }
                    }
                    let ghost old_tokens = tokens;
                    tokens.push(MathToken::Num(owned));
                    proof {
                        assert(tokens.deep_view() =~= old_tokens.deep_view().push(
                            Tok::Num(lit@),
                        ));
                    }
                    i = j;
                } else {
                    return Err(MathError::InvalidNumberLiteral(owned));
                }
            } else if is_op_char_exec(c) {
                let op = Op::from_char(c);
                proof {
                    let acc = tokens.deep_view();
                    assert(input@.skip(i as int).skip(1) =~= input@.skip(i + 1));
                    match lex(input@.skip(i + 1)) {
                        Ok(ts) => {
                            assert(acc + (seq![Tok::Oper(op_of_char(c))] + ts) =~= acc.push(
                                Tok::Oper(op_of_char(c)),
                            ) + ts);
                        },
                        Err(_) => {},
                    }
                }
                let ghost old_tokens = tokens;
                tokens.push(MathToken::Oper(op));
                proof {
                    assert(tokens.deep_view() =~= old_tokens.deep_view().push(
                        Tok::Oper(op_of_char(c)),
                    ));
                }
                i = i + 1;
            } else if is_skip_char_exec(c) {
                proof {
                    assert(input@.skip(i as int).skip(1) =~= input@.skip(i + 1));
                }
                i = i + 1;
            } else {
                return Err(MathError::UnsupportedCharacter(c));
            }
        }
        proof {
            assert(input@.skip(n as int).len() == 0);
            assert(tokens.deep_view() + Seq::<Tok>::empty() =~= tokens.deep_view());
        }
        Ok(Tokens(tokens))
    }
}

} // verus!
