//! Laws of the pipeline, stated and proved over its mathematical model.

use crate::eval::{eval_from, eval_line, eval_postfix, ExprModel};
use crate::lexer::{
    is_num_char, is_skip_char, is_valid_literal, lex, lemma_num_run_len_le, num_run_len,
};
use crate::op::{is_op_char, Op};
use crate::postfix::{drain_stack, shunt_from, to_postfix};
use crate::token::{ErrModel, Tok};
use vstd::prelude::*;

verus! {

/// A sequence made wholly of digits and dots is one maximal run.
proof fn lemma_num_run_len_full(s: Seq<char>)
    requires
        forall|k: int| 0 <= k < s.len() ==> is_num_char(#[trigger] s[k]),
    ensures
        num_run_len(s) == s.len(),
    decreases s.len(),
{
    if s.len() > 0 {
        assert(forall|k: int| 0 <= k < s.skip(1).len() ==> is_num_char(#[trigger] s.skip(1)[k]));
        lemma_num_run_len_full(s.skip(1));
    }
}

/// A line that is one valid number literal evaluates to that literal.
///
/// Three-decimal rounding is a display concern outside the pipeline: the
/// result carries the literal exactly as written.
pub proof fn lemma_single_literal(s: Seq<char>)
    requires
        s.len() > 0,
        forall|k: int| 0 <= k < s.len() ==> is_num_char(#[trigger] s[k]),
        is_valid_literal(s),
    ensures
        eval_line(s) == Ok::<ExprModel, ErrModel>(ExprModel::Lit(s)),
{
    lemma_num_run_len_full(s);
    assert(is_num_char(s[0]));
    assert(s.take(s.len() as int) =~= s);
    assert(s.skip(s.len() as int).len() == 0);
    assert(lex(s.skip(s.len() as int)) == Ok::<Seq<Tok>, ErrModel>(Seq::<Tok>::empty()));
    let toks = seq![Tok::Num(s)];
    assert(seq![Tok::Num(s)] + Seq::<Tok>::empty() =~= toks);
    assert(lex(s) == Ok::<Seq<Tok>, ErrModel>(toks));
    let out1 = Seq::<Tok>::empty().push(Tok::Num(s));
    assert(out1 =~= toks);
    assert(shunt_from(toks, 1, Seq::<Op>::empty(), toks) == drain_stack(
        Seq::<Op>::empty(),
        toks,
    ));
    assert(drain_stack(Seq::<Op>::empty(), toks) == Some(toks));
    assert(to_postfix(toks) == Some(toks));
    let stack1 = Seq::<ExprModel>::empty().push(ExprModel::Lit(s));
    assert(eval_from(toks, 1, stack1) == Ok::<ExprModel, ErrModel>(stack1[0]));
    assert(eval_postfix(toks) == Ok::<ExprModel, ErrModel>(ExprModel::Lit(s)));
}

/// Evaluation is a pure function of the line's characters: running the
/// identical line again yields the identical outcome, with no hidden state
/// carried between runs.
pub proof fn lemma_rerun_identical(s1: Seq<char>, s2: Seq<char>)
    requires
        s1 == s2,
    ensures
        eval_line(s1) == eval_line(s2),
{
}

/// A skipped character is neither part of a number nor an operator.
proof fn lemma_skip_char_class(c: char)
    requires
        is_skip_char(c),
    ensures
        !is_num_char(c),
        !is_op_char(c),
{
}

/// How the maximal digit-and-dot run of a concatenation decomposes.
proof fn lemma_num_run_len_concat(a: Seq<char>, b: Seq<char>)
    ensures
        num_run_len(a + b) == if num_run_len(a) < a.len() {
            num_run_len(a)
        } else {
            a.len() + num_run_len(b)
        },
    decreases a.len(),
{
    lemma_num_run_len_le(a);
    if a.len() == 0 {
        assert(a + b =~= b);
    } else if !is_num_char(a[0]) {
        assert((a + b)[0] == a[0]);
    } else {
        assert((a + b)[0] == a[0]);
        assert((a + b).skip(1) =~= a.skip(1) + b);
        lemma_num_run_len_concat(a.skip(1), b);
        lemma_num_run_len_le(a.skip(1));
    }
}

/// Inserting one whitespace or `=` character between `p` and `sfx` does not
/// change tokenization, provided the insertion point is not inside a number
/// literal (a skipped character splits a run of digits and dots in two).
proof fn lemma_skip_char_insertion(p: Seq<char>, c: char, sfx: Seq<char>)
    requires
        is_skip_char(c),
        !(p.len() > 0 && is_num_char(p.last()) && sfx.len() > 0 && is_num_char(sfx[0])),
    ensures
        lex(p + seq![c] + sfx) == lex(p + sfx),
    decreases p.len(),
{
    lemma_skip_char_class(c);
    let t1 = p + seq![c] + sfx;
    let t0 = p + sfx;
    if p.len() == 0 {
        assert(t1 =~= seq![c] + sfx);
        assert((seq![c] + sfx)[0] == c);
        assert((seq![c] + sfx).skip(1) =~= sfx);
        assert(t0 =~= sfx);
        assert(lex(t1) == lex(sfx));
    } else {
        assert(t1[0] == p[0]);
        assert(t0[0] == p[0]);
        if is_num_char(p[0]) {
            // The maximal run lies inside `p` on both sides.
            assert(t1 =~= p + (seq![c] + sfx));
            lemma_num_run_len_concat(p, seq![c] + sfx);
            lemma_num_run_len_concat(p, sfx);
            lemma_num_run_len_le(p);
            assert((seq![c] + sfx)[0] == c);
            assert(num_run_len(seq![c] + sfx) == 0);
            if num_run_len(p) == p.len() {
                // All of `p` is one run; the run cannot continue into `sfx`.
                assert(p.last() == p[p.len() - 1]);
                assert(is_num_char(p.last())) by {
                    lemma_num_run_len_full_converse(p);
                }
                if sfx.len() > 0 {
                    assert(!is_num_char(sfx[0]));
                    assert(num_run_len(sfx) == 0);
                } else {
                    assert(num_run_len(sfx) == 0);
                }
            }
            let n = num_run_len(t1) as int;
            assert(num_run_len(t0) as int == n);
            assert(1 <= n <= p.len());
            assert(t1.take(n) =~= p.take(n));
            assert(t0.take(n) =~= p.take(n));
            let lit = p.take(n);
            if is_valid_literal(lit) {
                assert(t1.skip(n) =~= p.skip(n) + seq![c] + sfx);
                assert(t0.skip(n) =~= p.skip(n) + sfx);
                if p.skip(n).len() > 0 {
                    assert(p.skip(n).last() == p.last());
                }
                lemma_skip_char_insertion(p.skip(n), c, sfx);
            }
        } else if is_op_char(p[0]) {
            assert(t1.skip(1) =~= p.skip(1) + seq![c] + sfx);
            assert(t0.skip(1) =~= p.skip(1) + sfx);
            if p.skip(1).len() > 0 {
                assert(p.skip(1).last() == p.last());
            }
            lemma_skip_char_insertion(p.skip(1), c, sfx);
        } else if is_skip_char(p[0]) {
            assert(t1.skip(1) =~= p.skip(1) + seq![c] + sfx);
            assert(t0.skip(1) =~= p.skip(1) + sfx);
            if p.skip(1).len() > 0 {
                assert(p.skip(1).last() == p.last());
            }
            lemma_skip_char_insertion(p.skip(1), c, sfx);
        } else {
        }
    }
}

/// A sequence that is one maximal run is made wholly of digits and dots.
proof fn lemma_num_run_len_full_converse(s: Seq<char>)
    requires
        num_run_len(s) == s.len(),
        s.len() > 0,
    ensures
        forall|k: int| 0 <= k < s.len() ==> is_num_char(#[trigger] s[k]),
    decreases s.len(),
{
    assert(is_num_char(s[0]));
    if s.len() > 1 {
        lemma_num_run_len_le(s.skip(1));
        lemma_num_run_len_full_converse(s.skip(1));
        assert(forall|k: int|
            1 <= k < s.len() ==> s[k] == s.skip(1)[k - 1] && is_num_char(#[trigger] s[k]));
    }
}

/// Whitespace and `=` are ignorable: inserting one such character at any
/// point that does not split a number literal leaves the outcome of the
/// whole pipeline unchanged.
pub proof fn lemma_skip_char_ignorable(p: Seq<char>, c: char, sfx: Seq<char>)
    requires
        is_skip_char(c),
        !(p.len() > 0 && is_num_char(p.last()) && sfx.len() > 0 && is_num_char(sfx[0])),
    ensures
        eval_line(p + seq![c] + sfx) == eval_line(p + sfx),
{
    lemma_skip_char_insertion(p, c, sfx);
}

} // verus!
