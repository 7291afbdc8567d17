//! Infix-to-postfix reordering: the shunting-yard algorithm.
//!
//! An operator stack and an append-only output queue resolve precedence and
//! parentheses.  A `)` pops until its `(`; a binary operator pops every
//! stacked operator of strictly greater precedence — one of equal
//! precedence stays, so an unparenthesized chain of equal precedence pops
//! in stack order and groups from the right.  A parenthesis left over on
//! either side — a `)` with no `(` below it, or a `(` never closed — is
//! rejected as unbalanced.

use crate::op::{is_arith, spec_precedence, Op};
use crate::token::{ErrModel, MathError, MathToken, Tok, Tokens};
use vstd::prelude::*;

verus! {

/// Pops operators to the output until an opening parenthesis is popped and
/// discarded; `None` when the stack runs out first.
pub open spec fn pop_until_open(stack: Seq<Op>, out: Seq<Tok>) -> Option<(Seq<Op>, Seq<Tok>)>
    decreases stack.len(),
{
    if stack.len() == 0 {
        None
    } else if stack.last() == Op::ParOpen {
        Some((stack.drop_last(), out))
    } else {
        pop_until_open(stack.drop_last(), out.push(Tok::Oper(stack.last())))
    }
}

/// Pops operators of strictly greater precedence than `op` to the output.
pub open spec fn pop_higher(op: Op, stack: Seq<Op>, out: Seq<Tok>) -> (Seq<Op>, Seq<Tok>)
    decreases stack.len(),
{
    if stack.len() > 0 && spec_precedence(stack.last()) > spec_precedence(op) {
        pop_higher(op, stack.drop_last(), out.push(Tok::Oper(stack.last())))
    } else {
        (stack, out)
    }
}

/// Pops every remaining operator to the output once the input is consumed;
/// `None` when an opening parenthesis was never closed.
pub open spec fn drain_stack(stack: Seq<Op>, out: Seq<Tok>) -> Option<Seq<Tok>>
    decreases stack.len(),
{
    if stack.len() == 0 {
        Some(out)
    } else if stack.last() == Op::ParOpen {
        None
    } else {
        drain_stack(stack.drop_last(), out.push(Tok::Oper(stack.last())))
    }
}

/// The shunting-yard run over `input` from position `i`, with the operator
/// stack and output built so far; `None` means unbalanced parentheses.
pub open spec fn shunt_from(input: Seq<Tok>, i: int, stack: Seq<Op>, out: Seq<Tok>) -> Option<
    Seq<Tok>,
>
    decreases input.len() - i,
{
    if i < 0 || i >= input.len() {
        drain_stack(stack, out)
    } else {
        match input[i] {
            Tok::Num(lit) => shunt_from(input, i + 1, stack, out.push(Tok::Num(lit))),
            Tok::Oper(op) => {
                if op == Op::ParOpen {
                    shunt_from(input, i + 1, stack.push(op), out)
                } else if op == Op::ParClose {
                    match pop_until_open(stack, out) {
                        None => None,
                        Some(so) => shunt_from(input, i + 1, so.0, so.1),
                    }
                } else {
                    let so = pop_higher(op, stack, out);
                    shunt_from(input, i + 1, so.0.push(op), so.1)
                }
            },
        }
    }
}

/// The postfix reordering of an infix token sequence; `None` means
/// unbalanced parentheses.
pub open spec fn to_postfix(input: Seq<Tok>) -> Option<Seq<Tok>> {
    shunt_from(input, 0, Seq::empty(), Seq::empty())
}

/// Every operator token in the sequence is arithmetic: no parentheses.
pub open spec fn all_tokens_arith(toks: Seq<Tok>) -> bool {
    forall|k: int|
        0 <= k < toks.len() ==> (#[trigger] toks[k] matches Tok::Oper(op) ==> is_arith(op))
}

/// No closing parenthesis ever stands on the operator stack.
spec fn stack_wf(stack: Seq<Op>) -> bool {
    forall|k: int| 0 <= k < stack.len() ==> #[trigger] stack[k] != Op::ParClose
}

proof fn lemma_pop_until_open_arith(stack: Seq<Op>, out: Seq<Tok>)
    requires
        stack_wf(stack),
        all_tokens_arith(out),
    ensures
        pop_until_open(stack, out) matches Some(so) ==> stack_wf(so.0) && all_tokens_arith(so.1),
    decreases stack.len(),
{
    if stack.len() == 0 {
    } else if stack.last() == Op::ParOpen {
        assert(stack_wf(stack.drop_last()));
    } else {
        assert(all_tokens_arith(out.push(Tok::Oper(stack.last()))));
        assert(stack_wf(stack.drop_last()));
        lemma_pop_until_open_arith(stack.drop_last(), out.push(Tok::Oper(stack.last())));
    }
}

proof fn lemma_pop_higher_arith(op: Op, stack: Seq<Op>, out: Seq<Tok>)
    requires
        stack_wf(stack),
        all_tokens_arith(out),
    ensures
        stack_wf(pop_higher(op, stack, out).0),
        all_tokens_arith(pop_higher(op, stack, out).1),
    decreases stack.len(),
{
    if stack.len() > 0 && spec_precedence(stack.last()) > spec_precedence(op) {
        assert(all_tokens_arith(out.push(Tok::Oper(stack.last()))));
        assert(stack_wf(stack.drop_last()));
        lemma_pop_higher_arith(op, stack.drop_last(), out.push(Tok::Oper(stack.last())));
    }
}

proof fn lemma_drain_stack_arith(stack: Seq<Op>, out: Seq<Tok>)
    requires
        stack_wf(stack),
        all_tokens_arith(out),
    ensures
        drain_stack(stack, out) matches Some(o) ==> all_tokens_arith(o),
    decreases stack.len(),
{
    if stack.len() == 0 || stack.last() == Op::ParOpen {
    } else {
        assert(all_tokens_arith(out.push(Tok::Oper(stack.last()))));
        assert(stack_wf(stack.drop_last()));
        lemma_drain_stack_arith(stack.drop_last(), out.push(Tok::Oper(stack.last())));
    }
}

/// The shunting-yard output never holds a parenthesis token.
proof fn lemma_shunt_from_arith(input: Seq<Tok>, i: int, stack: Seq<Op>, out: Seq<Tok>)
    requires
        stack_wf(stack),
        all_tokens_arith(out),
    ensures
        shunt_from(input, i, stack, out) matches Some(o) ==> all_tokens_arith(o),
    decreases input.len() - i,
{
    if i < 0 || i >= input.len() {
        lemma_drain_stack_arith(stack, out);
    } else {
        match input[i] {
            Tok::Num(lit) => {
                assert(all_tokens_arith(out.push(Tok::Num(lit))));
                lemma_shunt_from_arith(input, i + 1, stack, out.push(Tok::Num(lit)));
            },
            Tok::Oper(op) => {
                if op == Op::ParOpen {
                    assert(stack_wf(stack.push(op)));
                    lemma_shunt_from_arith(input, i + 1, stack.push(op), out);
                } else if op == Op::ParClose {
                    lemma_pop_until_open_arith(stack, out);
                    match pop_until_open(stack, out) {
                        None => {},
                        Some(so) => {
                            lemma_shunt_from_arith(input, i + 1, so.0, so.1);
                        },
                    }
                } else {
                    lemma_pop_higher_arith(op, stack, out);
                    let so = pop_higher(op, stack, out);
                    assert(stack_wf(so.0.push(op)));
                    lemma_shunt_from_arith(input, i + 1, so.0.push(op), so.1);
                }
            },
        }
    }
}

/// The postfix reordering of a well-formed run holds only number tokens and
/// arithmetic operators.
pub proof fn lemma_to_postfix_arith(input: Seq<Tok>)
    ensures
        to_postfix(input) matches Some(o) ==> all_tokens_arith(o),
{
    lemma_shunt_from_arith(input, 0, Seq::empty(), Seq::empty());
}

/// The outcome once a closing parenthesis has finished popping.
spec fn after_close(
    input: Seq<Tok>,
    i: int,
    popped: Option<(Seq<Op>, Seq<Tok>)>,
) -> Option<Seq<Tok>> {
    match popped {
        None => None,
        Some(so) => shunt_from(input, i, so.0, so.1),
    }
}

/// The outcome once a binary operator has finished popping and is pushed.
spec fn after_binary(input: Seq<Tok>, i: int, op: Op, so: (Seq<Op>, Seq<Tok>)) -> Option<
    Seq<Tok>,
> {
    shunt_from(input, i, so.0.push(op), so.1)
}

impl Tokens {
    /// Reorders an infix token sequence into postfix order, or reports
    /// unbalanced parentheses, carrying the infix sequence for diagnostics.
    #[verifier::loop_isolation(false)]
    pub fn shunting(self) -> (r: Result<Tokens, MathError>)
        ensures
            ({
                match r {
                    Ok(t) => to_postfix(self.deep_view()) == Some(t.deep_view())
                        && all_tokens_arith(t.deep_view()),
                    Err(e) => to_postfix(self.deep_view()) is None && e.deep_view()
                        == ErrModel::UnbalancedParentheses(self.deep_view()),
                }
            }),
    {
        let ghost dv = self.deep_view();
        let infix = self.0;
        proof {
            assert(dv == infix.deep_view());
        }
        let n = infix.len();
        let mut op_stack: Vec<Op> = Vec::new();
        let mut out_queue: Vec<MathToken> = Vec::new();
        let mut i: usize = 0;
        proof {
            assert(out_queue.deep_view() =~= Seq::<Tok>::empty());
            assert(op_stack@ =~= Seq::<Op>::empty());
        }
        while i < n
            invariant
                n == infix@.len(),
                dv == infix.deep_view(),
                i <= n,
                to_postfix(dv) == shunt_from(dv, i as int, op_stack@, out_queue.deep_view()),
            decreases n - i,
        {
            proof {
                assert(dv[i as int] == infix@[i as int].deep_view());
            }
            match infix[i].clone() {
                MathToken::Num(lit) => {
                    let ghost old_out = out_queue.deep_view();
                    out_queue.push(MathToken::Num(lit));
                    proof {
                        assert(out_queue.deep_view() =~= old_out.push(dv[i as int]));
                    }
                },
                MathToken::Oper(op) => {
                    if op == Op::ParOpen {
                        op_stack.push(op);
                    } else if op == Op::ParClose {
                        while op_stack.len() > 0 && op_stack[op_stack.len() - 1] != Op::ParOpen
                            invariant
                                n == infix@.len(),
                                i < n,
                                dv[i as int] == Tok::Oper(Op::ParClose),
                                to_postfix(dv) == after_close(
                                    dv,
                                    i + 1,
                                    pop_until_open(op_stack@, out_queue.deep_view()),
                                ),
                            decreases op_stack.len(),
                        {
                            let ghost old_stack = op_stack@;
                            let ghost old_out = out_queue.deep_view();
                            let top = op_stack.pop();
                            match top {
                                Some(top_op) => {
                                    out_queue.push(MathToken::Oper(top_op));
                                    proof {
                                        assert(op_stack@ =~= old_stack.drop_last());
                                        assert(out_queue.deep_view() =~= old_out.push(
                                            Tok::Oper(old_stack.last()),
                                        ));
                                    }
                                },
                                None => {},
                            }
                        }
                        if op_stack.len() == 0 {
                            proof {
                                assert(pop_until_open(op_stack@, out_queue.deep_view()) is None);
                            }
                            return Err(MathError::UnbalancedParentheses(infix));
                        }
                        let ghost old_stack = op_stack@;
                        let _discarded = op_stack.pop();
                        proof {
                            assert(op_stack@ =~= old_stack.drop_last());
                        }
                    } else {
                        while op_stack.len() > 0 && op_stack[op_stack.len() - 1].precedence()
                            > op.precedence()
                            invariant
                                n == infix@.len(),
                                i < n,
                                dv[i as int] == Tok::Oper(op),
                                to_postfix(dv) == after_binary(
                                    dv,
                                    i + 1,
                                    op,
                                    pop_higher(op, op_stack@, out_queue.deep_view()),
                                ),
                            decreases op_stack.len(),
                        {
                            let ghost old_stack = op_stack@;
                            let ghost old_out = out_queue.deep_view();
                            let top = op_stack.pop();
                            match top {
                                Some(top_op) => {
                                    out_queue.push(MathToken::Oper(top_op));
                                    proof {
                                        assert(op_stack@ =~= old_stack.drop_last());
                                        assert(out_queue.deep_view() =~= old_out.push(
                                            Tok::Oper(old_stack.last()),
                                        ));
                                    }
                                },
                                None => {},
                            }
                        }
                        op_stack.push(op);
                    }
                },
            }
            i = i + 1;
        }
        while op_stack.len() > 0 && op_stack[op_stack.len() - 1] != Op::ParOpen
            invariant
                to_postfix(dv) == drain_stack(op_stack@, out_queue.deep_view()),
            decreases op_stack.len(),
        {
            let ghost old_stack = op_stack@;
            let ghost old_out = out_queue.deep_view();
            let top = op_stack.pop();
            match top {
                Some(top_op) => {
                    out_queue.push(MathToken::Oper(top_op));
                    proof {
                        assert(op_stack@ =~= old_stack.drop_last());
                        assert(out_queue.deep_view() =~= old_out.push(
                            Tok::Oper(old_stack.last()),
                        ));
                    }
                },
                None => {},
            }
        }
        if op_stack.len() > 0 {
            // An opening parenthesis was never closed.
            return Err(MathError::UnbalancedParentheses(infix));
        }
        proof {
            lemma_to_postfix_arith(dv);
        }
        Ok(Tokens(out_queue))
    }
}

} // verus!
