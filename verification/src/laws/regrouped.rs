//! The sum as the scan groups it is one that the scan leaves as it is.

use crate::laws::standard::{lemma_pieces_shape, lemma_scan_regroups, lemma_standard_arithmetic};
use crate::machine::evaluation;
use crate::regrouping::{extended, joined};
use crate::symbols::{MINUS, PLUS};
use crate::syntax::{Atom, Product, Sum};
use vstd::prelude::*;

verus! {

/// Every piece is well formed and has its products of several factors at
/// its ends, and every piece but the last has none but the first.
pub open spec fn settled_pieces(pieces: Seq<Sum>) -> bool {
    forall|i: int|
        0 <= i < pieces.len() ==> {
            &&& (#[trigger] pieces[i]).well_formed()
            &&& pieces[i].products_at_the_ends()
            &&& i < pieces.len() - 1 ==> pieces[i].later_products_are_atoms()
        }
}

/// Regrouping keeps an atom well formed, and leaves no product of several
/// factors between two of the operators `+` and `-`.
pub proof fn lemma_regrouped_atom(atom: Atom)
    requires
        atom.well_formed(),
    ensures
        atom.regrouped().well_formed(),
        atom.regrouped().products_at_the_ends(),
    decreases atom, 0nat,
{
    match atom {
        Atom::Group(inner) => {
            lemma_regrouped_sum(*inner);
        },
        _ => {},
    }
}

/// Regrouping keeps a product well formed, and leaves no product of several
/// factors between two of the operators `+` and `-`.
pub proof fn lemma_regrouped_product(product: Product)
    requires
        product.well_formed(),
    ensures
        product.regrouped().well_formed(),
        product.regrouped().products_at_the_ends(),
        product.regrouped() is Single <==> product is Single,
    decreases product, 0nat,
{
    match product {
        Product::Single(atom) => {
            lemma_regrouped_atom(atom);
        },
        Product::Times(left, _, right) => {
            lemma_regrouped_product(*left);
            lemma_regrouped_atom(right);
        },
    }
}

/// The pieces of a sum that an operator follows have no product of several
/// factors but their first.
pub proof fn lemma_pieces_before_operator_settled(sum: Sum)
    requires
        sum.well_formed(),
    ensures
        settled_pieces(sum.pieces_before_operator().0),
        sum.pieces_before_operator().0.len() > 0,
        sum.pieces_before_operator().0.last().later_products_are_atoms(),
    decreases sum, 0nat,
{
    let pieces = sum.pieces_before_operator().0;
    match sum {
        Sum::Single(product) => {
            lemma_regrouped_product(product);
            let only = Sum::Single(product.regrouped());
            assert(only.well_formed() && only.products_at_the_ends());
            assert(only.later_products_are_atoms());
        },
        Sum::Plus(left, op, right) => {
            let earlier = left.pieces_before_operator().0;
            lemma_pieces_before_operator_settled(*left);
            lemma_regrouped_product(right);
            let last = right.regrouped();
            if right is Single {
                let grown = Sum::Plus(Box::new(earlier.last()), op, last);
                assert(grown.well_formed() && grown.products_at_the_ends());
                assert(grown.later_products_are_atoms());
                assert forall|i: int| 0 <= i < pieces.len() implies {
                    &&& (#[trigger] pieces[i]).well_formed()
                    &&& pieces[i].products_at_the_ends()
                    &&& pieces[i].later_products_are_atoms()
                } by {
                    if i < pieces.len() - 1 {
                        assert(pieces[i] == earlier[i]);
                    }
                }
            } else {
                let only = Sum::Single(last);
                assert(only.well_formed() && only.products_at_the_ends());
                assert(only.later_products_are_atoms());
                assert forall|i: int| 0 <= i < pieces.len() implies {
                    &&& (#[trigger] pieces[i]).well_formed()
                    &&& pieces[i].products_at_the_ends()
                    &&& pieces[i].later_products_are_atoms()
                } by {
                    if i < pieces.len() - 1 {
                        assert(pieces[i] == earlier[i]);
                    }
                }
            }
        },
    }
}

/// The pieces of a sum have their products of several factors at their
/// ends.
pub proof fn lemma_pieces_settled(sum: Sum)
    requires
        sum.well_formed(),
    ensures
        settled_pieces(sum.pieces().0),
    decreases sum, 1nat,
{
    let pieces = sum.pieces().0;
    match sum {
        Sum::Single(product) => {
            lemma_regrouped_product(product);
            let only = Sum::Single(product.regrouped());
            assert(only.well_formed() && only.products_at_the_ends());
        },
        Sum::Plus(left, op, right) => {
            let earlier = left.pieces_before_operator().0;
            lemma_pieces_before_operator_settled(*left);
            lemma_regrouped_product(right);
            let grown = Sum::Plus(Box::new(earlier.last()), op, right.regrouped());
            assert(grown.well_formed() && grown.products_at_the_ends());
            assert forall|i: int| 0 <= i < pieces.len() implies {
                &&& (#[trigger] pieces[i]).well_formed()
                &&& pieces[i].products_at_the_ends()
                &&& i < pieces.len() - 1 ==> pieces[i].later_products_are_atoms()
            } by {
                if i < pieces.len() - 1 {
                    assert(pieces[i] == earlier[i]);
                }
            }
        },
    }
}

/// Settled pieces join into a well-formed sum in which no product of
/// several factors stands between two of the operators `+` and `-`.
pub proof fn lemma_joined_settled(pieces: Seq<Sum>, operators: Seq<u8>)
    requires
        pieces.len() == operators.len() + 1,
        settled_pieces(pieces),
        forall|i: int|
            0 <= i < operators.len() ==> #[trigger] operators[i] == PLUS || operators[i] == MINUS,
    ensures
        joined(pieces, operators).well_formed(),
        joined(pieces, operators).products_at_the_ends(),
    decreases operators.len(),
{
    if operators.len() > 0 {
        let n = pieces.len() as int;
        let op = operators.last();
        let inner = Atom::Group(Box::new(pieces.last()));
        let product = Product::Single(inner);
        let before = pieces.drop_last();
        let merged = extended(before, op, product);
        let grown = Sum::Plus(Box::new(before.last()), op, product);
        assert(before.last() == pieces[n - 2]);
        assert(pieces.last() == pieces[n - 1]);
        assert(inner.well_formed() && inner.products_at_the_ends());
        assert(product.well_formed() && product.products_at_the_ends());
        assert(grown.well_formed() && grown.products_at_the_ends());
        assert(grown.later_products_are_atoms());
        assert forall|i: int| 0 <= i < merged.len() implies {
            &&& (#[trigger] merged[i]).well_formed()
            &&& merged[i].products_at_the_ends()
            &&& i < merged.len() - 1 ==> merged[i].later_products_are_atoms()
        } by {
            if i < merged.len() - 1 {
                assert(merged[i] == pieces[i]);
            }
        }
        assert forall|i: int| 0 <= i < operators.drop_last().len() implies #[trigger] operators.drop_last()[i]
            == PLUS || operators.drop_last()[i] == MINUS by {
            assert(operators.drop_last()[i] == operators[i]);
        }
        lemma_joined_settled(merged, operators.drop_last());
    }
}

/// The sum as the scan groups it is well formed, and no product of several
/// factors stands in it between two of the operators `+` and `-`.
pub proof fn lemma_regrouped_sum(sum: Sum)
    requires
        sum.well_formed(),
    ensures
        sum.regrouped().well_formed(),
        sum.regrouped().products_at_the_ends(),
    decreases sum, 2nat,
{
    lemma_pieces_settled(sum);
    lemma_pieces_shape(sum);
    lemma_joined_settled(sum.pieces().0, sum.pieces().1);
}

/// The scan reads a sum as it reads the sum as the scan groups it: the text
/// with a parenthesis opened before each product of several factors that
/// stands between two of the operators `+` and `-`, and closed at the end of
/// the sum.
pub proof fn lemma_reads_as_regrouped(table: Map<Seq<u8>, i32>, sum: Sum)
    requires
        sum.well_formed(),
    ensures
        evaluation(table, sum.text()) == evaluation(table, sum.regrouped().text()),
        evaluation(table, sum.regrouped().text()) == sum.regrouped().value(table),
{
    lemma_scan_regroups(table, sum);
    lemma_regrouped_sum(sum);
    lemma_standard_arithmetic(table, sum.regrouped());
}

} // verus!
