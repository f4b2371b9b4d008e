//! Identifiers and the bindings they are resolved with.

use crate::error::Fault;
use crate::laws::runs::lemma_run_letters;
use crate::machine::{
    Machine,
    close,
    conclude,
    drain,
    evaluation,
    finish,
    initial,
    reduce,
    settle,
    step,
};
use crate::symbols::{OPEN, all_lowercase_letters, spec_is_lowercase_letter};
use vstd::prelude::*;

verus! {

/// An identifier alone evaluates to the number that it is bound to, and
/// fails under its own name if it is bound to none.
pub proof fn lemma_identifier_alone(table: Map<Seq<u8>, i32>, name: Seq<u8>)
    requires
        name.len() > 0,
        all_lowercase_letters(name),
    ensures
        evaluation(table, name) == if table.contains_key(name) {
            Ok::<i32, Fault>(table[name])
        } else {
            Err::<i32, Fault>(Fault::UnknownVariable(name))
        },
{
    lemma_run_letters(table, initial(), name);
    assert(initial().identifier + name =~= name);
    let read = Machine { identifier: name, ..initial() };
    if table.contains_key(name) {
        let flushed = settle(table, read)->Ok_0;
        assert(flushed.values =~= seq![table[name]]);
        assert(drain(flushed.values, flushed.operators) == Ok::<Seq<i32>, Fault>(flushed.values));
    }
}

/// An identifier evaluates to the number that it was bound to last, whatever
/// it was bound to before.
pub proof fn lemma_last_binding_wins(
    table: Map<Seq<u8>, i32>,
    name: Seq<u8>,
    earlier: i32,
    later: i32,
)
    requires
        name.len() > 0,
        all_lowercase_letters(name),
    ensures
        evaluation(table.insert(name, earlier), name) == Ok::<i32, Fault>(earlier),
        evaluation(table.insert(name, earlier).insert(name, later), name) == Ok::<i32, Fault>(
            later,
        ),
{
    lemma_identifier_alone(table.insert(name, earlier), name);
    lemma_identifier_alone(table.insert(name, earlier).insert(name, later), name);
}

/// Through a run, the letters of the operand being read stay letters, and
/// an identifier that the run fails on is a word of letters that the table
/// does not bind.
pub proof fn lemma_unknown_variable_in_run(
    table: Map<Seq<u8>, i32>,
    m: Machine,
    text: Seq<u8>,
    name: Seq<u8>,
)
    requires
        all_lowercase_letters(m.identifier),
        conclude(table, m, text) == Err::<i32, Fault>(Fault::UnknownVariable(name)),
    ensures
        !table.contains_key(name),
        name.len() > 0,
        all_lowercase_letters(name),
    decreases text.len(),
{
    if text.len() == 0 {
        assert(finish(table, m) == Err::<i32, Fault>(Fault::UnknownVariable(name)));
        if settle(table, m) is Ok {
            let s = settle(table, m)->Ok_0;
            lemma_failures_of_draining(s.values, s.operators);
        }
    } else {
        match step(table, m, text[0]) {
            Ok(next) => {
                if spec_is_lowercase_letter(text[0]) {
                    assert forall|i: int| 0 <= i < next.identifier.len() implies spec_is_lowercase_letter(
                        #[trigger] next.identifier[i],
                    ) by {
                        if i < m.identifier.len() {
                            assert(next.identifier[i] == m.identifier[i]);
                        }
                    }
                } else {
                    assert(next.identifier == m.identifier || next.identifier.len() == 0);
                }
                lemma_unknown_variable_in_run(table, next, text.skip(1), name);
            },
            Err(e) => {
                assert(e == Fault::UnknownVariable(name));
                if settle(table, m) is Ok {
                    let s = settle(table, m)->Ok_0;
                    lemma_failures_of_closing(s.values, s.operators);
                }
            },
        }
    }
}

/// Applying pending operators never fails on an identifier.
pub proof fn lemma_failures_of_draining(values: Seq<i32>, operators: Seq<u8>)
    ensures
        match drain(values, operators) {
            Ok(_) => true,
            Err(e) => !(e is UnknownVariable),
        },
    decreases operators.len(),
{
    if operators.len() > 0 && operators.last() != OPEN {
        match reduce(values, operators.last()) {
            Ok(reduced) => lemma_failures_of_draining(reduced, operators.drop_last()),
            Err(_) => {},
        }
    }
}

/// Closing a parenthesis never fails on an identifier.
pub proof fn lemma_failures_of_closing(values: Seq<i32>, operators: Seq<u8>)
    ensures
        match close(values, operators) {
            Ok(_) => true,
            Err(e) => !(e is UnknownVariable),
        },
    decreases operators.len(),
{
    if operators.len() > 0 && operators.last() != OPEN {
        match reduce(values, operators.last()) {
            Ok(reduced) => lemma_failures_of_closing(reduced, operators.drop_last()),
            Err(_) => {},
        }
    }
}

/// An evaluation that fails on an unknown variable names a word of
/// lowercase letters that the table does not bind.
pub proof fn lemma_unknown_variable_is_unbound(
    table: Map<Seq<u8>, i32>,
    text: Seq<u8>,
    name: Seq<u8>,
)
    requires
        evaluation(table, text) == Err::<i32, Fault>(Fault::UnknownVariable(name)),
    ensures
        !table.contains_key(name),
        name.len() > 0,
        all_lowercase_letters(name),
{
    lemma_unknown_variable_in_run(table, initial(), text, name);
}

} // verus!
