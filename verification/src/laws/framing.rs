//! A run above a base: what lies below an open parenthesis is out of reach.

use crate::error::{Fault, SyntaxFault};
use crate::laws::runs::{lemma_run_concat, lemma_run_one};
use crate::machine::{
    Machine,
    close,
    drain,
    evaluation,
    has_operand,
    initial,
    reduce,
    run,
    settle,
    shift,
    step,
};
use crate::symbols::{CLOSE, OPEN, spec_is_operator};
use vstd::prelude::*;

verus! {

/// The machine `m` with `values` below its values and `operators` below its
/// operators.
pub open spec fn raised(m: Machine, values: Seq<i32>, operators: Seq<u8>) -> Machine {
    Machine { values: values + m.values, operators: operators + m.operators, ..m }
}

/// Nothing of the operator stack can be reached from above: it is empty, or
/// an open parenthesis lies on top.
pub open spec fn screened(operators: Seq<u8>) -> bool {
    operators.len() == 0 || operators.last() == OPEN
}

/// An operation that succeeds does the same with more values below.
pub proof fn lemma_reduce_raised(values: Seq<i32>, op: u8, below: Seq<i32>)
    requires
        reduce(values, op) is Ok,
    ensures
        reduce(below + values, op) == Ok::<Seq<i32>, Fault>(below + reduce(values, op)->Ok_0),
{
    let n = values.len() as int;
    let all = below + values;
    assert(all[all.len() - 2] == values[n - 2]);
    assert(all[all.len() - 1] == values[n - 1]);
    assert(all.take(all.len() - 2) =~= below + values.take(n - 2));
    let v = reduce(values, op)->Ok_0.last();
    assert((below + values.take(n - 2)).push(v) =~= below + values.take(n - 2).push(v));
}

/// Taking an operator succeeds alike above a screened base.
pub proof fn lemma_shift_raised(
    values: Seq<i32>,
    operators: Seq<u8>,
    op: u8,
    below: Seq<i32>,
    base: Seq<u8>,
)
    requires
        screened(base),
        shift(values, operators, op) is Ok,
    ensures
        shift(below + values, base + operators, op) == Ok::<(Seq<i32>, Seq<u8>), Fault>(
            (
                below + shift(values, operators, op)->Ok_0.0,
                base + shift(values, operators, op)->Ok_0.1,
            ),
        ),
{
    let all = base + operators;
    if operators.len() == 0 {
        assert(all =~= base);
        assert(all.push(op) =~= base + operators.push(op));
    } else {
        assert(all.last() == operators.last());
        assert(all.push(op) =~= base + operators.push(op));
        assert(all.drop_last().push(op) =~= base + operators.drop_last().push(op));
        if reduce(values, operators.last()) is Ok {
            lemma_reduce_raised(values, operators.last(), below);
        }
    }
}

/// Closing a parenthesis succeeds alike above any base.
pub proof fn lemma_close_raised(
    values: Seq<i32>,
    operators: Seq<u8>,
    below: Seq<i32>,
    base: Seq<u8>,
)
    requires
        close(values, operators) is Ok,
    ensures
        close(below + values, base + operators) == Ok::<(Seq<i32>, Seq<u8>), Fault>(
            (below + close(values, operators)->Ok_0.0, base + close(values, operators)->Ok_0.1),
        ),
    decreases operators.len(),
{
    let all = base + operators;
    assert(all.last() == operators.last());
    assert(all.drop_last() =~= base + operators.drop_last());
    if operators.last() != OPEN {
        lemma_reduce_raised(values, operators.last(), below);
        lemma_close_raised(
            reduce(values, operators.last())->Ok_0,
            operators.drop_last(),
            below,
            base,
        );
    }
}

/// A step that succeeds does the same above a screened base.
pub proof fn lemma_step_raised(
    table: Map<Seq<u8>, i32>,
    m: Machine,
    c: u8,
    below: Seq<i32>,
    base: Seq<u8>,
)
    requires
        screened(base),
        step(table, m, c) is Ok,
    ensures
        step(table, raised(m, below, base), c) == Ok::<Machine, Fault>(
            raised(step(table, m, c)->Ok_0, below, base),
        ),
{
    let up = raised(m, below, base);
    if c == OPEN {
        assert(up.operators.push(c) =~= base + m.operators.push(c));
    } else if c == CLOSE || spec_is_operator(c) {
        let s = settle(table, m)->Ok_0;
        assert(settle(table, up) == Ok::<Machine, Fault>(raised(s, below, base))) by {
            if has_operand(m) {
                assert(up.values.push(s.values.last()) =~= below + s.values);
            }
        }
        if c == CLOSE {
            lemma_close_raised(s.values, s.operators, below, base);
        } else {
            lemma_shift_raised(s.values, s.operators, c, below, base);
        }
    }
}

/// A run that succeeds does the same above a screened base.
pub proof fn lemma_run_raised(
    table: Map<Seq<u8>, i32>,
    m: Machine,
    text: Seq<u8>,
    below: Seq<i32>,
    base: Seq<u8>,
)
    requires
        screened(base),
        run(table, m, text) is Ok,
    ensures
        run(table, raised(m, below, base), text) == Ok::<Machine, Fault>(
            raised(run(table, m, text)->Ok_0, below, base),
        ),
    decreases text.len(),
{
    if text.len() > 0 {
        lemma_step_raised(table, m, text[0], below, base);
        lemma_run_raised(table, step(table, m, text[0])->Ok_0, text.skip(1), below, base);
    }
}

/// Operators that can all be applied at the end of the input are applied
/// alike by a closing parenthesis, if an open one lies below them; and fail
/// for want of a parenthesis if none does, or at the end of the input if
/// one does.
pub proof fn lemma_drain_under_parenthesis(
    values: Seq<i32>,
    operators: Seq<u8>,
    below: Seq<i32>,
    base: Seq<u8>,
)
    requires
        drain(values, operators) is Ok,
    ensures
        close(below + values, base.push(OPEN) + operators) == Ok::<(Seq<i32>, Seq<u8>), Fault>(
            (below + drain(values, operators)->Ok_0, base),
        ),
        drain(below + values, base.push(OPEN) + operators) == Err::<Seq<i32>, Fault>(
            Fault::Syntax(SyntaxFault::UnbalancedParentheses),
        ),
        close(values, operators) == Err::<(Seq<i32>, Seq<u8>), Fault>(
            Fault::Syntax(SyntaxFault::UnbalancedParentheses),
        ),
    decreases operators.len(),
{
    let all = base.push(OPEN) + operators;
    if operators.len() == 0 {
        assert(all =~= base.push(OPEN));
        assert(all.drop_last() =~= base);
    } else {
        assert(all.last() == operators.last());
        assert(all.drop_last() =~= base.push(OPEN) + operators.drop_last());
        lemma_reduce_raised(values, operators.last(), below);
        lemma_drain_under_parenthesis(
            reduce(values, operators.last())->Ok_0,
            operators.drop_last(),
            below,
            base,
        );
    }
}

/// An expression in parentheses leaves its value on the stack and nothing
/// else behind, wherever no operand is being read.
pub proof fn lemma_run_group(table: Map<Seq<u8>, i32>, m: Machine, inner: Seq<u8>)
    requires
        !has_operand(m),
        evaluation(table, inner) is Ok,
    ensures
        run(table, m, seq![OPEN] + inner + seq![CLOSE]) == Ok::<Machine, Fault>(
            Machine { values: m.values.push(evaluation(table, inner)->Ok_0), ..m },
        ),
{
    let v = evaluation(table, inner)->Ok_0;
    let opened = Machine { operators: m.operators.push(OPEN), ..m };
    let last = run(table, initial(), inner)->Ok_0;
    let settled = settle(table, last)->Ok_0;
    let left = drain(settled.values, settled.operators)->Ok_0;
    assert(left =~= seq![v]);
    let start = raised(initial(), m.values, opened.operators);
    assert(start.values =~= opened.values);
    assert(start.operators =~= opened.operators);
    assert(start.number =~= opened.number);
    assert(start.identifier =~= opened.identifier);
    assert(start == opened);
    lemma_run_raised(table, initial(), inner, m.values, opened.operators);
    let inside = raised(last, m.values, opened.operators);
    assert(settle(table, inside) == Ok::<Machine, Fault>(
        raised(settled, m.values, opened.operators),
    )) by {
        if has_operand(last) {
            assert(inside.values.push(settled.values.last()) =~= m.values + settled.values);
        }
    }
    lemma_drain_under_parenthesis(settled.values, settled.operators, m.values, m.operators);
    assert(m.values + left =~= m.values.push(v));
    let up = raised(settled, m.values, opened.operators);
    assert(up.operators == m.operators.push(OPEN) + settled.operators);
    assert(up.number =~= m.number);
    assert(up.identifier =~= m.identifier);
    assert(step(table, inside, CLOSE) == Ok::<Machine, Fault>(
        Machine { values: m.values.push(v), ..m },
    ));
    lemma_run_one(table, m, OPEN);
    lemma_run_one(table, inside, CLOSE);
    lemma_run_concat(table, m, seq![OPEN], inner);
    lemma_run_concat(table, m, seq![OPEN] + inner, seq![CLOSE]);
}

} // verus!
