//! Blanks are insignificant.

use crate::laws::runs::lemma_run_concat;
use crate::machine::{Machine, evaluation, initial, run};
use crate::symbols::SPACE;
use vstd::prelude::*;

verus! {

/// The test that tells a blank from the other bytes.
pub open spec fn not_blank() -> spec_fn(u8) -> bool {
    |c: u8| c != SPACE
}

/// The text without its blanks.
pub open spec fn without_blanks(text: Seq<u8>) -> Seq<u8> {
    text.filter(not_blank())
}

/// The machine reads a text as it reads the text without its blanks.
pub proof fn lemma_run_skips_blanks(table: Map<Seq<u8>, i32>, m: Machine, text: Seq<u8>)
    ensures
        run(table, m, text) == run(table, m, without_blanks(text)),
    decreases text.len(),
{
    reveal_with_fuel(Seq::filter, 2);
    if text.len() > 0 {
        let head = seq![text[0]];
        let tail = text.skip(1);
        assert(text =~= head + tail);
        Seq::filter_distributes_over_add(head, tail, not_blank());
        assert(head.drop_last() =~= Seq::<u8>::empty());
        if text[0] == SPACE {
            assert(without_blanks(head) =~= Seq::<u8>::empty());
            assert(without_blanks(text) =~= without_blanks(tail));
            lemma_run_skips_blanks(table, m, tail);
        } else {
            assert(without_blanks(head) =~= head);
            lemma_run_concat(table, m, head, without_blanks(tail));
            lemma_run_concat(table, m, head, tail);
            match run(table, m, head) {
                Ok(mid) => lemma_run_skips_blanks(table, mid, tail),
                Err(_) => {},
            }
        }
    }
}

/// Whitespace is insignificant: an expression evaluates to what it
/// evaluates to with all its blanks removed.
pub proof fn lemma_blanks_do_not_count(table: Map<Seq<u8>, i32>, text: Seq<u8>)
    ensures
        evaluation(table, text) == evaluation(table, without_blanks(text)),
{
    lemma_run_skips_blanks(table, initial(), text);
}

/// Two expressions that differ only in their blanks evaluate alike.
pub proof fn lemma_same_up_to_blanks(table: Map<Seq<u8>, i32>, a: Seq<u8>, b: Seq<u8>)
    requires
        without_blanks(a) == without_blanks(b),
    ensures
        evaluation(table, a) == evaluation(table, b),
{
    lemma_blanks_do_not_count(table, a);
    lemma_blanks_do_not_count(table, b);
}

/// A blank put anywhere into an expression changes nothing.
pub proof fn lemma_blank_inserted(table: Map<Seq<u8>, i32>, before: Seq<u8>, after: Seq<u8>)
    ensures
        evaluation(table, before + seq![SPACE] + after) == evaluation(table, before + after),
{
    reveal_with_fuel(Seq::filter, 2);
    let blank = seq![SPACE];
    assert(blank.drop_last() =~= Seq::<u8>::empty());
    assert(without_blanks(blank) =~= Seq::<u8>::empty());
    Seq::filter_distributes_over_add(before, blank, not_blank());
    Seq::filter_distributes_over_add(before + blank, after, not_blank());
    Seq::filter_distributes_over_add(before, after, not_blank());
    assert(without_blanks(before) + Seq::<u8>::empty() =~= without_blanks(before));
    lemma_same_up_to_blanks(table, before + blank + after, before + after);
}

} // verus!
