//! Expressions as trees, and what they denote in ordinary arithmetic.
//!
//! A sum is a chain of products joined by `+` and `-`, a product a chain of
//! atoms joined by `*` and `/`, and an atom a literal, an identifier or a
//! sum in parentheses. Chains associate to the left, so that the tree of an
//! expression says in which order ordinary arithmetic applies its
//! operators.

use crate::arith::combine;
use crate::error::Fault;
use crate::number::{all_digits, literal_value};
use crate::symbols::{CLOSE, MINUS, OPEN, PLUS, SLASH, STAR, all_lowercase_letters};
use vstd::prelude::*;

verus! {

/// An operand.
pub enum Atom {
    /// An unsigned decimal literal, by its digits.
    Literal(Seq<u8>),
    /// An identifier, by its letters.
    Variable(Seq<u8>),
    /// A sum in parentheses.
    Group(Box<Sum>),
}

/// Atoms joined by `*` and `/`.
pub enum Product {
    /// An atom alone.
    Single(Atom),
    /// A product, `*` or `/`, and one more atom.
    Times(Box<Product>, u8, Atom),
}

/// Products joined by `+` and `-`.
pub enum Sum {
    /// A product alone.
    Single(Product),
    /// A sum, `+` or `-`, and one more product.
    Plus(Box<Sum>, u8, Product),
}

impl Atom {
    /// The literals have digits, the identifiers letters, and the operators
    /// stand where they belong.
    pub open spec fn well_formed(self) -> bool
        decreases self,
    {
        match self {
            Atom::Literal(digits) => digits.len() > 0 && all_digits(digits),
            Atom::Variable(name) => name.len() > 0 && all_lowercase_letters(name),
            Atom::Group(inner) => inner.well_formed(),
        }
    }

    /// The atom as it is written.
    pub open spec fn text(self) -> Seq<u8>
        decreases self,
    {
        match self {
            Atom::Literal(digits) => digits,
            Atom::Variable(name) => name,
            Atom::Group(inner) => seq![OPEN] + inner.text() + seq![CLOSE],
        }
    }

    /// What the atom denotes under the bindings of `table`.
    pub open spec fn value(self, table: Map<Seq<u8>, i32>) -> Result<i32, Fault>
        decreases self,
    {
        match self {
            Atom::Literal(digits) => match literal_value(digits) {
                Some(v) => Ok(v),
                None => Err(Fault::NumberFormat),
            },
            Atom::Variable(name) => if table.contains_key(name) {
                Ok(table[name])
            } else {
                Err(Fault::UnknownVariable(name))
            },
            Atom::Group(inner) => inner.value(table),
        }
    }

    /// See [`Sum::products_at_the_ends`].
    pub open spec fn products_at_the_ends(self) -> bool
        decreases self,
    {
        match self {
            Atom::Group(inner) => inner.products_at_the_ends(),
            _ => true,
        }
    }
}

impl Product {
    /// The literals have digits, the identifiers letters, and the operators
    /// stand where they belong.
    pub open spec fn well_formed(self) -> bool
        decreases self,
    {
        match self {
            Product::Single(atom) => atom.well_formed(),
            Product::Times(left, op, right) => {
                &&& op == STAR || op == SLASH
                &&& left.well_formed()
                &&& right.well_formed()
            },
        }
    }

    /// The product as it is written.
    pub open spec fn text(self) -> Seq<u8>
        decreases self,
    {
        match self {
            Product::Single(atom) => atom.text(),
            Product::Times(left, op, right) => left.text() + seq![op] + right.text(),
        }
    }

    /// What the product denotes under the bindings of `table`: its atoms
    /// are multiplied and divided from left to right.
    pub open spec fn value(self, table: Map<Seq<u8>, i32>) -> Result<i32, Fault>
        decreases self,
    {
        match self {
            Product::Single(atom) => atom.value(table),
            Product::Times(left, op, right) => match left.value(table) {
                Ok(l) => match right.value(table) {
                    Ok(r) => combine(op, l, r),
                    Err(e) => Err(e),
                },
                Err(e) => Err(e),
            },
        }
    }

    /// See [`Sum::products_at_the_ends`].
    pub open spec fn products_at_the_ends(self) -> bool
        decreases self,
    {
        match self {
            Product::Single(atom) => atom.products_at_the_ends(),
            Product::Times(left, _, right) => left.products_at_the_ends()
                && right.products_at_the_ends(),
        }
    }
}

impl Sum {
    /// The literals have digits, the identifiers letters, and the operators
    /// stand where they belong.
    pub open spec fn well_formed(self) -> bool
        decreases self,
    {
        match self {
            Sum::Single(product) => product.well_formed(),
            Sum::Plus(left, op, right) => {
                &&& op == PLUS || op == MINUS
                &&& left.well_formed()
                &&& right.well_formed()
            },
        }
    }

    /// The sum as it is written.
    pub open spec fn text(self) -> Seq<u8>
        decreases self,
    {
        match self {
            Sum::Single(product) => product.text(),
            Sum::Plus(left, op, right) => left.text() + seq![op] + right.text(),
        }
    }

    /// What the sum denotes under the bindings of `table`: its products are
    /// added and subtracted from left to right. Every operation is one on
    /// 32-bit integers, and the first that fails is the failure of the
    /// whole.
    pub open spec fn value(self, table: Map<Seq<u8>, i32>) -> Result<i32, Fault>
        decreases self,
    {
        match self {
            Sum::Single(product) => product.value(table),
            Sum::Plus(left, op, right) => match left.value(table) {
                Ok(l) => match right.value(table) {
                    Ok(r) => combine(op, l, r),
                    Err(e) => Err(e),
                },
                Err(e) => Err(e),
            },
        }
    }

    /// Every product of the sum but the first is a single atom.
    pub open spec fn later_products_are_atoms(self) -> bool
        decreases self,
    {
        match self {
            Sum::Single(_) => true,
            Sum::Plus(left, _, right) => right is Single && left.later_products_are_atoms(),
        }
    }

    /// In this sum, and in every sum in parentheses within it, only the
    /// first and the last product have more than one factor: no product of
    /// several factors stands between two of the operators `+` and `-`.
    pub open spec fn products_at_the_ends(self) -> bool
        decreases self,
    {
        match self {
            Sum::Single(product) => product.products_at_the_ends(),
            Sum::Plus(left, _, right) => {
                &&& left.later_products_are_atoms()
                &&& left.products_at_the_ends()
                &&& right.products_at_the_ends()
            },
        }
    }
}

} // verus!
