//! Parentheses that do not match.

use crate::error::{Fault, SyntaxFault};
use crate::laws::framing::{lemma_drain_under_parenthesis, lemma_run_raised, raised};
use crate::laws::runs::{lemma_conclude_concat, lemma_run_concat, lemma_run_one};
use crate::machine::{
    Machine,
    close,
    drain,
    evaluation,
    finish,
    has_operand,
    initial,
    reduce,
    run,
    settle,
    step,
};
use crate::symbols::{CLOSE, OPEN, spec_is_operator};
use vstd::prelude::*;

verus! {

/// How many more parentheses the text opens than it closes.
pub open spec fn surplus(text: Seq<u8>) -> int
    decreases text.len(),
{
    if text.len() == 0 {
        0
    } else {
        surplus(text.skip(1)) + if text[0] == OPEN {
            1int
        } else if text[0] == CLOSE {
            -1int
        } else {
            0int
        }
    }
}

/// The parentheses of the text match: it closes as many as it opens, and at
/// no point more than it has opened.
pub open spec fn balanced(text: Seq<u8>) -> bool {
    &&& surplus(text) == 0
    &&& forall|k: int| 0 <= k <= text.len() ==> surplus(#[trigger] text.take(k)) >= 0
}

/// How many open parentheses the operator stack holds.
pub open spec fn open_count(operators: Seq<u8>) -> nat
    decreases operators.len(),
{
    if operators.len() == 0 {
        0
    } else {
        open_count(operators.drop_last()) + if operators.last() == OPEN {
            1nat
        } else {
            0nat
        }
    }
}

/// Closing a parenthesis takes exactly one open parenthesis off the stack.
pub proof fn lemma_close_takes_one(values: Seq<i32>, operators: Seq<u8>)
    requires
        close(values, operators) is Ok,
    ensures
        open_count(close(values, operators)->Ok_0.1) + 1 == open_count(operators),
    decreases operators.len(),
{
    if operators.last() != OPEN {
        lemma_close_takes_one(reduce(values, operators.last())->Ok_0, operators.drop_last());
    }
}

/// The pending operators can only all be applied if no parenthesis is open.
pub proof fn lemma_drain_finds_none(values: Seq<i32>, operators: Seq<u8>)
    requires
        drain(values, operators) is Ok,
    ensures
        open_count(operators) == 0,
    decreases operators.len(),
{
    if operators.len() > 0 {
        lemma_drain_finds_none(reduce(values, operators.last())->Ok_0, operators.drop_last());
    }
}

/// A run keeps count: the stack holds an open parenthesis for each one that
/// the text opened and has not closed, and the text never closes one that
/// is not open.
pub proof fn lemma_run_keeps_count(table: Map<Seq<u8>, i32>, m: Machine, text: Seq<u8>)
    requires
        run(table, m, text) is Ok,
    ensures
        open_count(run(table, m, text)->Ok_0.operators) == open_count(m.operators) + surplus(text),
        forall|k: int|
            0 <= k <= text.len() ==> open_count(m.operators) + surplus(#[trigger] text.take(k))
                >= 0,
    decreases text.len(),
{
    if text.len() == 0 {
        assert forall|k: int| 0 <= k <= text.len() implies open_count(m.operators) + surplus(
            #[trigger] text.take(k),
        ) >= 0 by {
            assert(text.take(k) =~= text);
        }
    } else {
        let c = text[0];
        let next = step(table, m, c)->Ok_0;
        let weight: int = if c == OPEN {
            1
        } else if c == CLOSE {
            -1
        } else {
            0
        };
        assert(open_count(next.operators) == open_count(m.operators) + weight) by {
            if c == OPEN {
                assert(m.operators.push(c).drop_last() =~= m.operators);
            } else if c == CLOSE {
                let s = settle(table, m)->Ok_0;
                lemma_close_takes_one(s.values, s.operators);
            } else if spec_is_operator(c) {
                let s = settle(table, m)->Ok_0;
                assert(s.operators.push(c).drop_last() =~= s.operators);
                assert(s.operators.drop_last().push(c).drop_last() =~= s.operators.drop_last());
            }
        }
        lemma_run_keeps_count(table, next, text.skip(1));
        assert forall|k: int| 0 <= k <= text.len() implies open_count(m.operators) + surplus(
            #[trigger] text.take(k),
        ) >= 0 by {
            if k > 0 {
                assert(text.take(k)[0] == c);
                assert(text.take(k).skip(1) =~= text.skip(1).take(k - 1));
            }
        }
    }
}

/// Only an expression whose parentheses match evaluates to a number: with
/// unbalanced parentheses the evaluation fails.
pub proof fn lemma_value_needs_balance(table: Map<Seq<u8>, i32>, text: Seq<u8>)
    requires
        evaluation(table, text) is Ok,
    ensures
        balanced(text),
{
    lemma_run_keeps_count(table, initial(), text);
    let last = run(table, initial(), text)->Ok_0;
    let settled = settle(table, last)->Ok_0;
    lemma_drain_finds_none(settled.values, settled.operators);
}

/// A parenthesis that is opened and never closed is a syntax error: if
/// `inner` evaluates to a number, and `before` is read without failure and
/// leaves no operand unfinished, `before ( inner` fails on the unbalanced
/// parenthesis.
pub proof fn lemma_unclosed_parenthesis(table: Map<Seq<u8>, i32>, before: Seq<u8>, inner: Seq<u8>)
    requires
        run(table, initial(), before) is Ok,
        !has_operand(run(table, initial(), before)->Ok_0),
        evaluation(table, inner) is Ok,
    ensures
        evaluation(table, before + seq![OPEN] + inner) == Err::<i32, Fault>(
            Fault::Syntax(SyntaxFault::UnbalancedParentheses),
        ),
{
    let m = run(table, initial(), before)->Ok_0;
    let opened = Machine { operators: m.operators.push(OPEN), ..m };
    let last = run(table, initial(), inner)->Ok_0;
    let settled = settle(table, last)->Ok_0;
    let start = raised(initial(), m.values, opened.operators);
    assert(start.values =~= opened.values);
    assert(start.operators =~= opened.operators);
    assert(start.number =~= opened.number);
    assert(start.identifier =~= opened.identifier);
    lemma_run_raised(table, initial(), inner, m.values, opened.operators);
    let inside = raised(last, m.values, opened.operators);
    assert(settle(table, inside) == Ok::<Machine, Fault>(
        raised(settled, m.values, opened.operators),
    )) by {
        if has_operand(last) {
            assert(inside.values.push(settled.values.last()) =~= m.values + settled.values);
        }
    }
    lemma_drain_under_parenthesis(settled.values, settled.operators, m.values, m.operators);
    assert(finish(table, inside) == Err::<i32, Fault>(
        Fault::Syntax(SyntaxFault::UnbalancedParentheses),
    ));
    lemma_run_one(table, m, OPEN);
    lemma_run_concat(table, initial(), before, seq![OPEN]);
    lemma_conclude_concat(table, initial(), before + seq![OPEN], inner);
}

/// A parenthesis that is closed and was never opened is a syntax error: if
/// `inner` evaluates to a number, `inner ) after` fails on the unbalanced
/// parenthesis, whatever comes after it.
pub proof fn lemma_unopened_parenthesis(table: Map<Seq<u8>, i32>, inner: Seq<u8>, after: Seq<u8>)
    requires
        evaluation(table, inner) is Ok,
    ensures
        evaluation(table, inner + seq![CLOSE] + after) == Err::<i32, Fault>(
            Fault::Syntax(SyntaxFault::UnbalancedParentheses),
        ),
{
    let last = run(table, initial(), inner)->Ok_0;
    let settled = settle(table, last)->Ok_0;
    lemma_drain_under_parenthesis(
        settled.values,
        settled.operators,
        Seq::<i32>::empty(),
        Seq::<u8>::empty(),
    );
    lemma_run_one(table, last, CLOSE);
    lemma_run_concat(table, initial(), inner, seq![CLOSE]);
    lemma_conclude_concat(table, initial(), inner + seq![CLOSE], after);
}

} // verus!
