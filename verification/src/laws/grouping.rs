//! A parenthesis stands for its value.

use crate::error::Fault;
use crate::laws::framing::lemma_run_group;
use crate::laws::runs::{
    lemma_conclude_concat,
    lemma_finish_settles,
    lemma_run_digits,
    lemma_step_settles,
};
use crate::machine::{Machine, conclude, evaluation, has_operand, initial, run, settle, step};
use crate::number::literal_value;
use crate::symbols::{CLOSE, OPEN, SPACE, spec_is_operator};
use vstd::prelude::*;

verus! {

/// The text cannot go on with an operand that was begun before it: it is
/// blank, or the first byte of it that is no blank is an operator or a
/// closing parenthesis.
pub open spec fn ends_operand(text: Seq<u8>) -> bool
    decreases text.len(),
{
    text.len() == 0 || spec_is_operator(text[0]) || text[0] == CLOSE || (text[0] == SPACE
        && ends_operand(text.skip(1)))
}

/// After `text` no operand is being read, unless reading `text` fails.
pub open spec fn leaves_no_operand(table: Map<Seq<u8>, i32>, text: Seq<u8>) -> bool {
    match run(table, initial(), text) {
        Ok(m) => !has_operand(m),
        Err(_) => true,
    }
}

/// Before a text that ends the operand, it makes no difference whether the
/// operand was flushed already.
pub proof fn lemma_conclude_flushed(table: Map<Seq<u8>, i32>, m: Machine, text: Seq<u8>)
    requires
        ends_operand(text),
    ensures
        conclude(table, m, text) == match settle(table, m) {
            Ok(s) => conclude(table, s, text),
            Err(e) => Err(e),
        },
    decreases text.len(),
{
    if text.len() == 0 {
        lemma_finish_settles(table, m);
    } else if spec_is_operator(text[0]) || text[0] == CLOSE {
        lemma_step_settles(table, m, text[0]);
    } else {
        lemma_conclude_flushed(table, m, text.skip(1));
        match settle(table, m) {
            Ok(s) => {
                assert(step(table, s, text[0]) == Ok::<Machine, Fault>(s));
            },
            Err(_) => {},
        }
    }
}

/// A parenthesized sub-expression evaluates as if it were replaced by its
/// result: where `inner` evaluates to a number, and `digits` is a literal
/// of that number, `before (inner) after` evaluates to what
/// `before digits after` evaluates to. The parenthesis must stand where an
/// operand begins and ends: no operand is being read after `before`, and
/// `after` goes on with an operator, a closing parenthesis or nothing.
pub proof fn lemma_group_as_literal(
    table: Map<Seq<u8>, i32>,
    before: Seq<u8>,
    inner: Seq<u8>,
    digits: Seq<u8>,
    after: Seq<u8>,
)
    requires
        leaves_no_operand(table, before),
        evaluation(table, inner) is Ok,
        literal_value(digits) == Some(evaluation(table, inner)->Ok_0),
        ends_operand(after),
    ensures
        evaluation(table, before + seq![OPEN] + inner + seq![CLOSE] + after) == evaluation(
            table,
            before + digits + after,
        ),
{
    let group = seq![OPEN] + inner + seq![CLOSE];
    assert(before + seq![OPEN] + inner + seq![CLOSE] + after =~= before + (group + after));
    assert(before + digits + after =~= before + (digits + after));
    lemma_conclude_concat(table, initial(), before, group + after);
    lemma_conclude_concat(table, initial(), before, digits + after);
    match run(table, initial(), before) {
        Ok(m) => {
            let v = evaluation(table, inner)->Ok_0;
            lemma_run_group(table, m, inner);
            lemma_conclude_concat(table, m, group, after);
            lemma_run_digits(table, m, digits);
            lemma_conclude_concat(table, m, digits, after);
            let grouped = Machine { values: m.values.push(v), ..m };
            let read = Machine { number: m.number + digits, ..m };
            assert(read.number =~= digits);
            assert(settle(table, read) == Ok::<Machine, Fault>(grouped)) by {
                assert(grouped.number =~= Seq::<u8>::empty());
                assert(grouped.identifier =~= Seq::<u8>::empty());
            }
            lemma_conclude_flushed(table, read, after);
        },
        Err(_) => {},
    }
}

} // verus!
