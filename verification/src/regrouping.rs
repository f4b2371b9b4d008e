//! How the scan groups the products of a sum.
//!
//! When the machine takes an operator, it applies at most one of the
//! operators that are pending. A product of several factors that stands
//! between two of the operators `+` and `-` uses that one application up
//! for its own last `*` or `/`: the `+` or `-` before it stays pending and
//! is applied only after everything that follows. The sum is cut before
//! such a product, as if a parenthesis were opened there and closed at the
//! end of the sum: `1-2*3+4` is read as `1-(2*3+4)`.

use crate::error::Fault;
use crate::syntax::{Atom, Product, Sum};
use vstd::prelude::*;

verus! {

/// The pieces with `op` and `product` added to the last of them.
pub open spec fn extended(pieces: Seq<Sum>, op: u8, product: Product) -> Seq<Sum>
    recommends
        pieces.len() > 0,
{
    pieces.drop_last().push(Sum::Plus(Box::new(pieces.last()), op, product))
}

/// The pieces joined into one sum: each piece but the first stands in
/// parentheses with all that follow it, after the operator that stood
/// before it.
pub open spec fn joined(pieces: Seq<Sum>, operators: Seq<u8>) -> Sum
    recommends
        pieces.len() == operators.len() + 1,
    decreases operators.len(),
{
    if operators.len() == 0 || pieces.len() < 2 {
        pieces.last()
    } else {
        joined(
            extended(
                pieces.drop_last(),
                operators.last(),
                Product::Single(Atom::Group(Box::new(pieces.last()))),
            ),
            operators.drop_last(),
        )
    }
}

/// The values of the pieces, or the failure of the first of them that
/// fails.
pub open spec fn values_of(table: Map<Seq<u8>, i32>, pieces: Seq<Sum>) -> Result<Seq<i32>, Fault>
    decreases pieces.len(),
{
    if pieces.len() == 0 {
        Ok(Seq::empty())
    } else {
        match values_of(table, pieces.drop_last()) {
            Ok(values) => match pieces.last().value(table) {
                Ok(v) => Ok(values.push(v)),
                Err(e) => Err(e),
            },
            Err(e) => Err(e),
        }
    }
}

impl Atom {
    /// The atom with every sum in it grouped as the scan groups it.
    pub open spec fn regrouped(self) -> Atom
        decreases self,
    {
        match self {
            Atom::Group(inner) => Atom::Group(Box::new(inner.regrouped())),
            _ => self,
        }
    }
}

impl Product {
    /// The product with every sum in it grouped as the scan groups it.
    pub open spec fn regrouped(self) -> Product
        decreases self,
    {
        match self {
            Product::Single(atom) => Product::Single(atom.regrouped()),
            Product::Times(left, op, right) => Product::Times(
                Box::new(left.regrouped()),
                op,
                right.regrouped(),
            ),
        }
    }
}

impl Sum {
    /// The pieces into which the scan has cut the sum when the sum ends, and
    /// the operators that stood before the cuts: there is a cut before each
    /// product of several factors that is neither the first nor the last
    /// product of the sum.
    pub open spec fn pieces(self) -> (Seq<Sum>, Seq<u8>)
        decreases self, 1nat,
    {
        match self {
            Sum::Single(product) => (seq![Sum::Single(product.regrouped())], Seq::empty()),
            Sum::Plus(left, op, right) => (
                extended(left.pieces_before_operator().0, op, right.regrouped()),
                left.pieces_before_operator().1,
            ),
        }
    }

    /// The pieces into which the scan has cut the sum when one more of the
    /// operators `+` and `-` follows it, and the operators that stood before
    /// the cuts: there is a cut before each product of several factors but
    /// the first.
    pub open spec fn pieces_before_operator(self) -> (Seq<Sum>, Seq<u8>)
        decreases self, 0nat,
    {
        match self {
            Sum::Single(product) => (seq![Sum::Single(product.regrouped())], Seq::empty()),
            Sum::Plus(left, op, right) => if right is Single {
                (
                    extended(left.pieces_before_operator().0, op, right.regrouped()),
                    left.pieces_before_operator().1,
                )
            } else {
                (
                    left.pieces_before_operator().0.push(Sum::Single(right.regrouped())),
                    left.pieces_before_operator().1.push(op),
                )
            },
        }
    }

    /// The sum as the scan groups it: cut into its pieces, with each piece
    /// but the first in parentheses together with all that follow it; and
    /// every sum in parentheses within it grouped likewise.
    pub open spec fn regrouped(self) -> Sum
        decreases self, 2nat,
    {
        joined(self.pieces().0, self.pieces().1)
    }
}

} // verus!
