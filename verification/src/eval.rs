//! Postfix evaluation over a value stack, and the whole pipeline.
//!
//! The evaluator consumes a postfix token sequence left to right.  A number
//! pushes a value; a binary operator pops the right operand, then the left,
//! and pushes the combination.  Exactly one value must remain at the end.
//!
//! A value is an [`Expr`]: the arithmetic expression tree the input denotes.
//! The tree keeps each literal as its text, so the numeric result — a
//! floating-point computation — can be carried out by the caller outside
//! the library.

use crate::lexer::lex;
use crate::op::{is_arith, Op};
use crate::postfix::{all_tokens_arith, to_postfix};
use crate::token::{ErrModel, MathError, MathToken, Tok, Tokens};
use vstd::prelude::*;

verus! {

/// The arithmetic expression a well-formed input line denotes: a number
/// literal, carried as its text, or a binary operation on two expressions.
#[derive(PartialEq, Debug)]
pub enum Expr {
    Lit(String),
    Bin(Op, Box<Expr>, Box<Expr>),
}

/// The mathematical model of an expression tree.
pub enum ExprModel {
    Lit(Seq<char>),
    Bin(Op, Box<ExprModel>, Box<ExprModel>),
}

/// The model of an expression tree: literals become their character
/// sequences.
pub open spec fn expr_model(e: Expr) -> ExprModel
    decreases e,
{
    match e {
        Expr::Lit(s) => ExprModel::Lit(s@),
        Expr::Bin(op, a, b) => ExprModel::Bin(
            op,
            Box::new(expr_model(*a)),
            Box::new(expr_model(*b)),
        ),
    }
}

impl DeepView for Expr {
    type V = ExprModel;

    open spec fn deep_view(&self) -> ExprModel {
        expr_model(*self)
    }
}

/// A well-formed expression combines subexpressions only with the four
/// arithmetic operators, never with a parenthesis.
pub open spec fn expr_wf(e: ExprModel) -> bool
    decreases e,
{
    match e {
        ExprModel::Lit(_) => true,
        ExprModel::Bin(op, a, b) => is_arith(op) && expr_wf(*a) && expr_wf(*b),
    }
}

/// The evaluation of `post` from position `i` with the value stack built so
/// far: the single remaining value, or the first fault met.
pub open spec fn eval_from(post: Seq<Tok>, i: int, stack: Seq<ExprModel>) -> Result<
    ExprModel,
    ErrModel,
>
    decreases post.len() - i,
{
    if i < 0 || i >= post.len() {
        if stack.len() == 1 {
            Ok(stack[0])
        } else {
            Err(ErrModel::MalformedExpression(post))
        }
    } else {
        match post[i] {
            Tok::Num(lit) => eval_from(post, i + 1, stack.push(ExprModel::Lit(lit))),
            Tok::Oper(op) => {
                if stack.len() < 2 {
                    Err(ErrModel::StackUnderflow(post))
                } else {
                    eval_from(
                        post,
                        i + 1,
                        stack.drop_last().drop_last().push(
                            ExprModel::Bin(
                                op,
                                Box::new(stack[stack.len() - 2]),
                                Box::new(stack[stack.len() - 1]),
                            ),
                        ),
                    )
                }
            },
        }
    }
}

/// The evaluation of a whole postfix sequence.
pub open spec fn eval_postfix(post: Seq<Tok>) -> Result<ExprModel, ErrModel> {
    eval_from(post, 0, Seq::empty())
}

/// The model of a whole-pipeline result, for contracts.
pub open spec fn expr_result_model(r: Result<Expr, MathError>) -> Result<ExprModel, ErrModel> {
    match r {
        Ok(e) => Ok(e.deep_view()),
        Err(er) => Err(er.deep_view()),
    }
}

/// The outcome of the whole pipeline on one line: tokenize, reorder to
/// postfix, evaluate.
pub open spec fn eval_line(s: Seq<char>) -> Result<ExprModel, ErrModel> {
    match lex(s) {
        Err(e) => Err(e),
        Ok(toks) => match to_postfix(toks) {
            None => Err(ErrModel::UnbalancedParentheses(toks)),
            Some(post) => eval_postfix(post),
        },
    }
}

/// Evaluating an all-arithmetic postfix sequence from a stack of
/// well-formed values yields a well-formed value.
proof fn lemma_eval_from_wf(post: Seq<Tok>, i: int, stack: Seq<ExprModel>)
    requires
        all_tokens_arith(post),
        forall|k: int| 0 <= k < stack.len() ==> expr_wf(#[trigger] stack[k]),
    ensures
        eval_from(post, i, stack) matches Ok(e) ==> expr_wf(e),
    decreases post.len() - i,
{
    if i < 0 || i >= post.len() {
    } else {
        match post[i] {
            Tok::Num(lit) => {
                let stack2 = stack.push(ExprModel::Lit(lit));
                assert(forall|k: int| 0 <= k < stack2.len() ==> expr_wf(#[trigger] stack2[k]));
                lemma_eval_from_wf(post, i + 1, stack2);
            },
            Tok::Oper(op) => {
                if stack.len() >= 2 {
                    let combined = ExprModel::Bin(
                        op,
                        Box::new(stack[stack.len() - 2]),
                        Box::new(stack[stack.len() - 1]),
                    );
                    let stack2 = stack.drop_last().drop_last().push(combined);
                    assert(is_arith(op));
                    assert(expr_wf(combined));
                    assert(forall|k: int| 0 <= k < stack2.len() ==> expr_wf(#[trigger] stack2[k]));
                    lemma_eval_from_wf(post, i + 1, stack2);
                }
            },
        }
    }
}

impl Tokens {
    /// Evaluates a postfix token sequence to the expression it denotes, or
    /// reports the fault, carrying the postfix sequence for diagnostics.
    ///
    /// A parenthesis token never reaches the evaluator from the pipeline,
    /// and applying one as a binary operator is a contract violation, so
    /// the sequence is required to be parenthesis-free.
    #[verifier::loop_isolation(false)]
    pub fn solve(self) -> (r: Result<Expr, MathError>)
        requires
            all_tokens_arith(self.deep_view()),
        ensures
            expr_result_model(r) == eval_postfix(self.deep_view()),
            r matches Ok(e) ==> expr_wf(e.deep_view()),
    {
        let ghost dv = self.deep_view();
        let post = self.0;
        proof {
            assert(dv == post.deep_view());
        }
        let n = post.len();
        let mut stack: Vec<Expr> = Vec::new();
        let mut i: usize = 0;
        proof {
            assert(stack.deep_view() =~= Seq::<ExprModel>::empty());
        }
        while i < n
            invariant
                n == post@.len(),
                i <= n,
                eval_postfix(dv) == eval_from(dv, i as int, stack.deep_view()),
                forall|k: int|
                    0 <= k < stack.deep_view().len() ==> expr_wf(#[trigger] stack.deep_view()[k]),
            decreases n - i,
        {
            proof {
                assert(dv[i as int] == post@[i as int].deep_view());
            }
            match post[i].clone() {
                MathToken::Num(lit) => {
                    let ghost old_stack = stack.deep_view();
                    stack.push(Expr::Lit(lit));
                    proof {
                        assert(stack.deep_view() =~= old_stack.push(ExprModel::Lit(lit@)));
                    }
                },
                MathToken::Oper(op) => {
                    if stack.len() < 2 {
                        proof {
                            assert(eval_postfix(dv) == Err::<ExprModel, ErrModel>(
                                ErrModel::StackUnderflow(dv),
                            ));
                        }
                        return Err(MathError::StackUnderflow(post));
                    }
                    let ghost old_stack = stack.deep_view();
                    let y = stack.pop().unwrap();
                    let x = stack.pop().unwrap();
                    stack.push(Expr::Bin(op, Box::new(x), Box::new(y)));
                    proof {
                        assert(x.deep_view() == old_stack[old_stack.len() - 2]);
                        assert(y.deep_view() == old_stack[old_stack.len() - 1]);
                        assert(stack.deep_view() =~= old_stack.drop_last().drop_last().push(
                            ExprModel::Bin(
                                op,
                                Box::new(old_stack[old_stack.len() - 2]),
                                Box::new(old_stack[old_stack.len() - 1]),
                            ),
                        ));
                    }
                },
            }
            i = i + 1;
        }
        if stack.len() == 1 {
            let ghost final_stack = stack.deep_view();
            let e = stack.pop().unwrap();
            proof {
                assert(e.deep_view() == final_stack[0]);
                lemma_eval_from_wf(dv, 0, Seq::empty());
            }
            Ok(e)
        } else {
            Err(MathError::MalformedExpression(post))
        }
    }

    /// Runs the whole pipeline on one input line: tokenize, reorder to
    /// postfix, evaluate.  The first fault ends the run.
    pub fn handle(input: &str) -> (r: Result<Expr, MathError>)
        ensures
            expr_result_model(r) == eval_line(input@),
            r matches Ok(e) ==> expr_wf(e.deep_view()),
    {
        let tokens = match Tokens::parse(input) {
            Ok(t) => t,
            Err(e) => {
                return Err(e);
            },
        };
        let post = match tokens.shunting() {
            Ok(t) => t,
            Err(e) => {
                return Err(e);
            },
        };
        post.solve()
    }
}

} // verus!
