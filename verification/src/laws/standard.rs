//! The machine against ordinary arithmetic.
//!
//! On the text of every well-formed sum the machine computes what ordinary
//! arithmetic makes of the sum as the scan groups it
//! ([`lemma_scan_regroups`]). Where no product of several factors stands
//! between two of the operators `+` and `-`, there is nothing to regroup,
//! and the evaluation is that of ordinary arithmetic
//! ([`lemma_standard_arithmetic`]).

use crate::arith::combine;
use crate::error::Fault;
use crate::laws::framing::screened;
use crate::laws::runs::{
    lemma_finish_settles,
    lemma_run_concat,
    lemma_run_digits,
    lemma_run_letters,
    lemma_run_one,
    lemma_step_settles,
};
use crate::machine::{Machine, close, drain, evaluation, initial, reduce, run, settle, step};
use crate::regrouping::{extended, joined, values_of};
use crate::symbols::{CLOSE, MINUS, OPEN, PLUS, SLASH, STAR, priority, spec_is_operator};
use crate::syntax::{Atom, Product, Sum};
use vstd::prelude::*;

verus! {

/// The machine between two operands: the two stacks, and no operand being
/// read.
pub open spec fn resting(values: Seq<i32>, operators: Seq<u8>) -> Machine {
    Machine { values, operators, number: Seq::empty(), identifier: Seq::empty() }
}

/// The machine after `text`, with the last operand flushed.
pub open spec fn settled_run(table: Map<Seq<u8>, i32>, m: Machine, text: Seq<u8>) -> Result<
    Machine,
    Fault,
> {
    match run(table, m, text) {
        Ok(last) => settle(table, last),
        Err(e) => Err(e),
    }
}

/// No `*` or `/` lies on top of the operator stack.
pub open spec fn quiet(operators: Seq<u8>) -> bool {
    operators.len() == 0 || priority(operators.last()) == 0
}

/// What the machine holds above its stacks once it has read a product: the
/// value of a single atom, or the two operands of the last `*` or `/` and
/// that operator, not yet applied.
pub open spec fn pending_product(table: Map<Seq<u8>, i32>, product: Product) -> Result<
    (Seq<i32>, Seq<u8>),
    Fault,
> {
    match product {
        Product::Single(atom) => match atom.value(table) {
            Ok(v) => Ok((seq![v], Seq::empty())),
            Err(e) => Err(e),
        },
        Product::Times(left, op, right) => match left.value(table) {
            Ok(l) => match right.value(table) {
                Ok(r) => Ok((seq![l, r], seq![op])),
                Err(e) => Err(e),
            },
            Err(e) => Err(e),
        },
    }
}

/// What the machine holds above its stacks once it has read a sum: the
/// values of the pieces into which it has cut the sum before its last
/// product, with the operators that stood before the cuts; then the operator
/// before the last product, and what is pending of that product.
pub open spec fn pending_sum(table: Map<Seq<u8>, i32>, sum: Sum) -> Result<
    (Seq<i32>, Seq<u8>),
    Fault,
> {
    match sum {
        Sum::Single(product) => pending_product(table, product.regrouped()),
        Sum::Plus(left, op, right) => match values_of(table, left.pieces_before_operator().0) {
            Ok(earlier) => match pending_product(table, right.regrouped()) {
                Ok((values, operators)) => Ok(
                    (earlier + values, left.pieces_before_operator().1.push(op) + operators),
                ),
                Err(e) => Err(e),
            },
            Err(e) => Err(e),
        },
    }
}

/// Reading a text, an operator or closing parenthesis, and more text: the
/// byte in the middle finds the operand before it flushed.
pub proof fn lemma_settled_run_split(
    table: Map<Seq<u8>, i32>,
    m: Machine,
    first: Seq<u8>,
    c: u8,
    rest: Seq<u8>,
)
    requires
        spec_is_operator(c) || c == CLOSE,
    ensures
        settled_run(table, m, first + seq![c] + rest) == match settled_run(table, m, first) {
            Ok(s) => match step(table, s, c) {
                Ok(next) => settled_run(table, next, rest),
                Err(e) => Err(e),
            },
            Err(e) => Err(e),
        },
{
    assert(first + seq![c] + rest =~= first + (seq![c] + rest));
    lemma_run_concat(table, m, first, seq![c] + rest);
    match run(table, m, first) {
        Ok(mid) => {
            lemma_run_concat(table, mid, seq![c], rest);
            lemma_run_one(table, mid, c);
            lemma_step_settles(table, mid, c);
        },
        Err(_) => {},
    }
}

/// With two values to work on, an operation does the same, and fails the
/// same, whatever lies below them.
pub proof fn lemma_reduce_alike(values: Seq<i32>, op: u8, below: Seq<i32>)
    requires
        values.len() >= 2,
    ensures
        reduce(below + values, op) == match reduce(values, op) {
            Ok(reduced) => Ok::<Seq<i32>, Fault>(below + reduced),
            Err(e) => Err(e),
        },
{
    let n = values.len() as int;
    let all = below + values;
    assert(all[all.len() - 2] == values[n - 2]);
    assert(all[all.len() - 1] == values[n - 1]);
    assert(all.take(all.len() - 2) =~= below + values.take(n - 2));
    match reduce(values, op) {
        Ok(reduced) => {
            assert((below + values.take(n - 2)).push(reduced.last()) =~= below + reduced);
        },
        Err(_) => {},
    }
}

/// An operation on a stack of two values leaves its result alone.
pub proof fn lemma_reduce_two(left: i32, right: i32, op: u8)
    ensures
        reduce(seq![left, right], op) == match combine(op, left, right) {
            Ok(v) => Ok::<Seq<i32>, Fault>(seq![v]),
            Err(e) => Err(e),
        },
{
    let both = seq![left, right];
    assert(both.take(0) =~= Seq::<i32>::empty());
    match combine(op, left, right) {
        Ok(v) => {
            assert(Seq::<i32>::empty().push(v) =~= seq![v]);
        },
        Err(_) => {},
    }
}

/// An operation on the two values on top of a stack.
pub proof fn lemma_reduce_top(below: Seq<i32>, left: i32, right: i32, op: u8)
    ensures
        reduce(below.push(left).push(right), op) == match combine(op, left, right) {
            Ok(v) => Ok::<Seq<i32>, Fault>(below.push(v)),
            Err(e) => Err(e),
        },
{
    lemma_reduce_two(left, right, op);
    lemma_reduce_alike(seq![left, right], op, below);
    assert(below + seq![left, right] =~= below.push(left).push(right));
    match combine(op, left, right) {
        Ok(v) => {
            assert(below + seq![v] =~= below.push(v));
        },
        Err(_) => {},
    }
}

/// Operators with one value more than there are of them: a closing
/// parenthesis applies them above an open one as the end of the input
/// applies them, and one value is left.
pub proof fn lemma_close_as_drain(
    values: Seq<i32>,
    operators: Seq<u8>,
    below: Seq<i32>,
    base: Seq<u8>,
)
    requires
        values.len() == operators.len() + 1,
        forall|i: int| 0 <= i < operators.len() ==> operators[i] != OPEN,
    ensures
        close(below + values, base.push(OPEN) + operators) == match drain(values, operators) {
            Ok(left) => Ok::<(Seq<i32>, Seq<u8>), Fault>((below + left, base)),
            Err(e) => Err(e),
        },
        drain(values, operators) is Ok ==> drain(values, operators)->Ok_0.len() == 1,
    decreases operators.len(),
{
    let stack = base.push(OPEN) + operators;
    if operators.len() == 0 {
        assert(stack =~= base.push(OPEN));
        assert(stack.drop_last() =~= base);
    } else {
        assert(stack.last() == operators.last());
        assert(stack.drop_last() =~= base.push(OPEN) + operators.drop_last());
        lemma_reduce_alike(values, operators.last(), below);
        match reduce(values, operators.last()) {
            Ok(reduced) => {
                lemma_close_as_drain(reduced, operators.drop_last(), below, base);
            },
            Err(_) => {},
        }
    }
}

/// There are as many values as pieces.
pub proof fn lemma_values_of_len(table: Map<Seq<u8>, i32>, pieces: Seq<Sum>)
    ensures
        values_of(table, pieces) is Ok ==> values_of(table, pieces)->Ok_0.len() == pieces.len(),
    decreases pieces.len(),
{
    if pieces.len() > 0 {
        lemma_values_of_len(table, pieces.drop_last());
    }
}

/// The values of the pieces when the last piece has grown by an operator
/// and a product.
pub proof fn lemma_values_of_extended(
    table: Map<Seq<u8>, i32>,
    pieces: Seq<Sum>,
    op: u8,
    product: Product,
)
    requires
        pieces.len() > 0,
    ensures
        values_of(table, extended(pieces, op, product)) == match values_of(table, pieces) {
            Ok(values) => match product.value(table) {
                Ok(r) => match combine(op, values.last(), r) {
                    Ok(v) => Ok::<Seq<i32>, Fault>(values.drop_last().push(v)),
                    Err(e) => Err(e),
                },
                Err(e) => Err(e),
            },
            Err(e) => Err(e),
        },
{
    let grown = extended(pieces, op, product);
    let last = Sum::Plus(Box::new(pieces.last()), op, product);
    assert(grown.drop_last() =~= pieces.drop_last());
    assert(grown.last() == last);
    assert(last.value(table) == match pieces.last().value(table) {
        Ok(l) => match product.value(table) {
            Ok(r) => combine(op, l, r),
            Err(e) => Err(e),
        },
        Err(e) => Err(e),
    });
    match values_of(table, pieces) {
        Ok(values) => {
            assert(values.drop_last() =~= values_of(table, pieces.drop_last())->Ok_0);
        },
        Err(_) => {},
    }
}

/// The shape of the pieces of a sum: one piece more than operators, and the
/// operators are `+` and `-`.
pub proof fn lemma_pieces_shape(sum: Sum)
    requires
        sum.well_formed(),
    ensures
        sum.pieces().0.len() == sum.pieces().1.len() + 1,
        sum.pieces_before_operator().0.len() == sum.pieces_before_operator().1.len() + 1,
        sum.pieces().1 == sum.pieces_before_operator().1 || sum.pieces_before_operator().1
            == sum.pieces().1.push(sum->Plus_1),
        forall|i: int|
            0 <= i < sum.pieces_before_operator().1.len() ==> {
                ||| #[trigger] sum.pieces_before_operator().1[i] == PLUS
                ||| sum.pieces_before_operator().1[i] == MINUS
            },
        forall|i: int|
            0 <= i < sum.pieces().1.len() ==> {
                ||| #[trigger] sum.pieces().1[i] == PLUS
                ||| sum.pieces().1[i] == MINUS
            },
    decreases sum,
{
    match sum {
        Sum::Single(_) => {},
        Sum::Plus(left, op, right) => {
            lemma_pieces_shape(*left);
        },
    }
}

/// Pieces joined from the right denote what is left when their values are
/// combined from the right, as the end of the input combines them; and fail
/// with the first piece that fails.
pub proof fn lemma_joined_value(table: Map<Seq<u8>, i32>, pieces: Seq<Sum>, operators: Seq<u8>)
    requires
        pieces.len() == operators.len() + 1,
        forall|i: int| 0 <= i < operators.len() ==> operators[i] != OPEN,
    ensures
        match values_of(table, pieces) {
            Ok(values) => drain(values, operators) == match joined(pieces, operators).value(
                table,
            ) {
                Ok(v) => Ok::<Seq<i32>, Fault>(seq![v]),
                Err(e) => Err(e),
            },
            Err(e) => joined(pieces, operators).value(table) == Err::<i32, Fault>(e),
        },
    decreases operators.len(),
{
    let n = pieces.len() as int;
    if operators.len() == 0 {
        assert(pieces.drop_last() =~= Seq::<Sum>::empty());
        match pieces.last().value(table) {
            Ok(v) => {
                assert(Seq::<i32>::empty().push(v) =~= seq![v]);
            },
            Err(_) => {},
        }
    } else {
        let op = operators.last();
        let inner = Atom::Group(Box::new(pieces.last()));
        let product = Product::Single(inner);
        let merged = extended(pieces.drop_last(), op, product);
        assert(inner.value(table) == pieces.last().value(table));
        assert(product.value(table) == pieces.last().value(table));
        lemma_values_of_extended(table, pieces.drop_last(), op, product);
        lemma_joined_value(table, merged, operators.drop_last());
        lemma_values_of_len(table, pieces.drop_last());
        match values_of(table, pieces) {
            Ok(values) => {
                let earlier = values_of(table, pieces.drop_last())->Ok_0;
                let r = pieces.last().value(table)->Ok_0;
                assert(values == earlier.push(r));
                assert(earlier =~= earlier.drop_last().push(earlier.last()));
                lemma_reduce_top(earlier.drop_last(), earlier.last(), r, op);
            },
            Err(_) => {},
        }
    }
}

/// At the end of the input, what is pending of a product is applied
/// first, and gives the product's value.
pub proof fn lemma_drain_product(
    table: Map<Seq<u8>, i32>,
    product: Product,
    under: Seq<i32>,
    operators: Seq<u8>,
)
    requires
        product matches Product::Times(_, inner, _) ==> inner == STAR || inner == SLASH,
        pending_product(table, product) is Ok,
    ensures
        drain(
            under + pending_product(table, product)->Ok_0.0,
            operators + pending_product(table, product)->Ok_0.1,
        ) == match product.value(table) {
            Ok(v) => drain(under.push(v), operators),
            Err(e) => Err(e),
        },
{
    let (above, pending) = pending_product(table, product)->Ok_0;
    match product {
        Product::Single(atom) => {
            assert(under + above =~= under.push(atom.value(table)->Ok_0));
            assert(operators + pending =~= operators);
        },
        Product::Times(left, inner, right) => {
            let l = left.value(table)->Ok_0;
            let r = right.value(table)->Ok_0;
            let stack = operators + pending;
            assert(under + above =~= under.push(l).push(r));
            assert(stack.last() == inner);
            assert(stack.drop_last() =~= operators);
            lemma_reduce_top(under, l, r, inner);
        },
    }
}

/// At the end of the input, the operator on top of the stack is applied to
/// the two values on top.
pub proof fn lemma_drain_top(body: Seq<i32>, left: i32, right: i32, cuts: Seq<u8>, op: u8)
    requires
        op != OPEN,
    ensures
        drain(body.push(left).push(right), cuts.push(op)) == match combine(op, left, right) {
            Ok(v) => drain(body.push(v), cuts),
            Err(e) => Err(e),
        },
{
    assert(cuts.push(op).drop_last() =~= cuts);
    lemma_reduce_top(body, left, right, op);
}

/// At the end of the input, what is pending of a sum comes to the value of
/// the sum as the scan groups it.
pub proof fn lemma_pending_drains(table: Map<Seq<u8>, i32>, sum: Sum)
    requires
        sum.well_formed(),
    ensures
        match pending_sum(table, sum) {
            Ok((values, operators)) => drain(values, operators) == match sum.regrouped().value(
                table,
            ) {
                Ok(v) => Ok::<Seq<i32>, Fault>(seq![v]),
                Err(e) => Err(e),
            },
            Err(e) => sum.regrouped().value(table) == Err::<i32, Fault>(e),
        },
{
    let none = Seq::<i32>::empty();
    let (pieces, operators) = sum.pieces();
    lemma_pieces_shape(sum);
    lemma_joined_value(table, pieces, operators);
    match sum {
        Sum::Single(product) => {
            let last = product.regrouped();
            let only = Sum::Single(last);
            lemma_operator_kept(product);
            assert(pieces.drop_last() =~= Seq::<Sum>::empty());
            assert(pieces.last() == only);
            assert(only.value(table) == last.value(table));
            if pending_product(table, last) is Ok {
                let (above, pending) = pending_product(table, last)->Ok_0;
                lemma_drain_product(table, last, none, operators);
                assert(none + above =~= above);
                assert(operators + pending =~= pending);
                match last.value(table) {
                    Ok(v) => {
                        assert(none.push(v) =~= seq![v]);
                    },
                    Err(_) => {},
                }
            } else {
                lemma_pending_product_fails(table, last);
            }
        },
        Sum::Plus(left, op, right) => {
            let last = right.regrouped();
            let (earlier, cuts) = left.pieces_before_operator();
            lemma_pieces_shape(*left);
            lemma_operator_kept(right);
            lemma_values_of_extended(table, earlier, op, last);
            lemma_values_of_len(table, earlier);
            match values_of(table, earlier) {
                Ok(settled) => {
                    if pending_product(table, last) is Ok {
                        lemma_drain_product(table, last, settled, cuts.push(op));
                        match last.value(table) {
                            Ok(r) => {
                                let body = settled.drop_last();
                                assert(settled =~= body.push(settled.last()));
                                lemma_drain_top(body, settled.last(), r, cuts, op);
                            },
                            Err(_) => {},
                        }
                    } else {
                        lemma_pending_product_fails(table, last);
                    }
                },
                Err(_) => {},
            }
        },
    }
}

/// What is pending of a sum has one value more than operators, and no
/// parenthesis among the operators.
pub proof fn lemma_pending_shape(table: Map<Seq<u8>, i32>, sum: Sum)
    requires
        sum.well_formed(),
        pending_sum(table, sum) is Ok,
    ensures
        pending_sum(table, sum)->Ok_0.0.len() == pending_sum(table, sum)->Ok_0.1.len() + 1,
        forall|i: int|
            0 <= i < pending_sum(table, sum)->Ok_0.1.len() ==> pending_sum(table, sum)->Ok_0.1[i]
                != OPEN,
{
    let (values, operators) = pending_sum(table, sum)->Ok_0;
    match sum {
        Sum::Single(product) => {
            lemma_operator_kept(product);
        },
        Sum::Plus(left, op, right) => {
            let (earlier, cuts) = left.pieces_before_operator();
            lemma_pieces_shape(*left);
            lemma_operator_kept(right);
            lemma_values_of_len(table, earlier);
            let pending = pending_product(table, right.regrouped())->Ok_0.1;
            assert forall|i: int| 0 <= i < operators.len() implies operators[i] != OPEN by {
                if i < cuts.len() {
                    assert(operators[i] == cuts[i]);
                } else if i == cuts.len() {
                    assert(operators[i] == op);
                } else {
                    assert(operators[i] == pending[i - cuts.len() - 1]);
                }
            }
        },
    }
}

/// What is pending of a sum is applied by a closing parenthesis as it is at
/// the end of the input, and comes to the value of the sum as the scan
/// groups it.
pub proof fn lemma_pending_collapses(
    table: Map<Seq<u8>, i32>,
    sum: Sum,
    below: Seq<i32>,
    base: Seq<u8>,
)
    requires
        sum.well_formed(),
    ensures
        match pending_sum(table, sum) {
            Ok((values, operators)) => {
                &&& drain(values, operators) == match sum.regrouped().value(table) {
                    Ok(v) => Ok::<Seq<i32>, Fault>(seq![v]),
                    Err(e) => Err(e),
                }
                &&& close(below + values, base.push(OPEN) + operators) == match sum.regrouped().value(
                    table,
                ) {
                    Ok(v) => Ok::<(Seq<i32>, Seq<u8>), Fault>((below.push(v), base)),
                    Err(e) => Err(e),
                }
            },
            Err(e) => sum.regrouped().value(table) == Err::<i32, Fault>(e),
        },
{
    lemma_pending_drains(table, sum);
    match pending_sum(table, sum) {
        Ok((values, operators)) => {
            lemma_pending_shape(table, sum);
            lemma_close_as_drain(values, operators, below, base);
            match sum.regrouped().value(table) {
                Ok(v) => {
                    assert(below + seq![v] =~= below.push(v));
                },
                Err(_) => {},
            }
        },
        Err(_) => {},
    }
}

/// The machine on an atom: it leaves on the stack the value of the atom as
/// the scan groups it, or fails as that does.
pub proof fn lemma_atom(table: Map<Seq<u8>, i32>, values: Seq<i32>, operators: Seq<u8>, atom: Atom)
    requires
        atom.well_formed(),
    ensures
        settled_run(table, resting(values, operators), atom.text()) == match atom.regrouped().value(
            table,
        ) {
            Ok(v) => Ok::<Machine, Fault>(resting(values.push(v), operators)),
            Err(e) => Err(e),
        },
    decreases atom,
{
    let m = resting(values, operators);
    match atom {
        Atom::Literal(digits) => {
            lemma_run_digits(table, m, digits);
            assert(m.number + digits =~= digits);
        },
        Atom::Variable(name) => {
            lemma_run_letters(table, m, name);
            assert(m.identifier + name =~= name);
        },
        Atom::Group(inner) => {
            let sum = *inner;
            let opened = resting(values, operators.push(OPEN));
            lemma_sum(table, values, operators.push(OPEN), sum);
            lemma_pending_collapses(table, sum, values, operators);
            lemma_run_one(table, m, OPEN);
            assert(atom.text() =~= seq![OPEN] + (sum.text() + seq![CLOSE] + Seq::<u8>::empty()));
            lemma_run_concat(
                table,
                m,
                seq![OPEN],
                sum.text() + seq![CLOSE] + Seq::<u8>::empty(),
            );
            lemma_settled_run_split(table, opened, sum.text(), CLOSE, Seq::<u8>::empty());
        },
    }
}

/// The machine on a product, where no `*` or `/` is pending before it: it
/// leaves behind what [`pending_product`] says, or fails as the product
/// does.
pub proof fn lemma_product(
    table: Map<Seq<u8>, i32>,
    values: Seq<i32>,
    operators: Seq<u8>,
    product: Product,
)
    requires
        quiet(operators),
        product.well_formed(),
    ensures
        settled_run(table, resting(values, operators), product.text()) == match pending_product(
            table,
            product.regrouped(),
        ) {
            Ok((above, pending)) => Ok::<Machine, Fault>(
                resting(values + above, operators + pending),
            ),
            Err(e) => Err(e),
        },
    decreases product,
{
    let m = resting(values, operators);
    match product {
        Product::Single(atom) => {
            lemma_atom(table, values, operators, atom);
            match atom.regrouped().value(table) {
                Ok(v) => {
                    assert(values + seq![v] =~= values.push(v));
                    assert(operators + Seq::<u8>::empty() =~= operators);
                },
                Err(_) => {},
            }
        },
        Product::Times(left, op, right) => {
            let first = *left;
            lemma_product(table, values, operators, first);
            lemma_settled_run_split(table, m, first.text(), op, right.text());
            lemma_operator_kept(first);
            if pending_product(table, first.regrouped()) is Ok {
                lemma_first_factors(table, values, operators, first.regrouped(), op);
                match first.regrouped().value(table) {
                    Ok(l) => {
                        lemma_atom(table, values.push(l), operators.push(op), right);
                        match right.regrouped().value(table) {
                            Ok(r) => {
                                assert(values.push(l).push(r) =~= values + seq![l, r]);
                                assert(operators.push(op) =~= operators + seq![op]);
                            },
                            Err(_) => {},
                        }
                    },
                    Err(_) => {},
                }
            } else {
                lemma_pending_product_fails(table, first.regrouped());
            }
        },
    }
}

/// Regrouping leaves the operators of a product where they are.
pub proof fn lemma_operator_kept(product: Product)
    requires
        product.well_formed(),
    ensures
        product.regrouped() matches Product::Times(_, op, _) ==> op == STAR || op == SLASH,
        product is Single <==> product.regrouped() is Single,
{
}

/// After a product, where no `*` or `/` was pending before it, the next
/// operator finds the product's value: the operator that was pending of the
/// product is applied, and the new one is pushed, provided that nothing
/// below calls for more.
pub proof fn lemma_first_factors(
    table: Map<Seq<u8>, i32>,
    values: Seq<i32>,
    operators: Seq<u8>,
    product: Product,
    op: u8,
)
    requires
        product matches Product::Times(_, inner, _) ==> inner == STAR || inner == SLASH,
        spec_is_operator(op),
        pending_product(table, product) is Ok,
        quiet(operators),
        priority(op) == 1 || screened(operators),
    ensures
        step(
            table,
            resting(
                values + pending_product(table, product)->Ok_0.0,
                operators + pending_product(table, product)->Ok_0.1,
            ),
            op,
        ) == match product.value(table) {
            Ok(v) => Ok::<Machine, Fault>(resting(values.push(v), operators.push(op))),
            Err(e) => Err(e),
        },
{
    let (above, pending) = pending_product(table, product)->Ok_0;
    match product {
        Product::Single(atom) => {
            assert(values + above =~= values.push(atom.value(table)->Ok_0));
            assert(operators + pending =~= operators);
        },
        Product::Times(left, inner, right) => {
            let stack = operators + pending;
            assert(stack.last() == inner);
            assert(stack.drop_last() =~= operators);
            lemma_reduce_alike(above, inner, values);
            match reduce(above, inner) {
                Ok(reduced) => {
                    assert(reduced =~= seq![reduced[0]]);
                    assert(values + reduced =~= values.push(reduced[0]));
                },
                Err(_) => {},
            }
        },
    }
}

/// Nothing is pending of a product only if the product fails, and then with
/// the same failure.
pub proof fn lemma_pending_product_fails(table: Map<Seq<u8>, i32>, product: Product)
    requires
        pending_product(table, product) is Err,
    ensures
        product.value(table) == Err::<i32, Fault>(pending_product(table, product)->Err_0),
{
}

/// A `+` or `-` arrives after a product that follows an earlier `+` or `-`.
/// If the product is a single atom, the earlier operator is applied to the
/// value below and the atom; if it has several factors, its own last
/// operator is applied, and the earlier `+` or `-` stays pending.
pub proof fn lemma_operator_after_product(
    table: Map<Seq<u8>, i32>,
    values: Seq<i32>,
    operators: Seq<u8>,
    product: Product,
    op: u8,
)
    requires
        values.len() > 0,
        operators.len() > 0,
        operators.last() == PLUS || operators.last() == MINUS,
        op == PLUS || op == MINUS,
        product matches Product::Times(_, inner, _) ==> inner == STAR || inner == SLASH,
        pending_product(table, product) is Ok,
    ensures
        step(
            table,
            resting(
                values + pending_product(table, product)->Ok_0.0,
                operators + pending_product(table, product)->Ok_0.1,
            ),
            op,
        ) == match product.value(table) {
            Ok(r) => if product is Single {
                match combine(operators.last(), values.last(), r) {
                    Ok(v) => Ok::<Machine, Fault>(
                        resting(values.drop_last().push(v), operators.drop_last().push(op)),
                    ),
                    Err(e) => Err(e),
                }
            } else {
                Ok::<Machine, Fault>(resting(values.push(r), operators.push(op)))
            },
            Err(e) => Err(e),
        },
{
    let (above, pending) = pending_product(table, product)->Ok_0;
    let all = values + above;
    let stack = operators + pending;
    match product {
        Product::Single(atom) => {
            let r = atom.value(table)->Ok_0;
            let body = values.drop_last();
            assert(all =~= body.push(values.last()).push(r));
            assert(stack =~= operators);
            lemma_reduce_top(body, values.last(), r, operators.last());
        },
        Product::Times(left, inner, right) => {
            let l = left.value(table)->Ok_0;
            let r = right.value(table)->Ok_0;
            assert(all =~= values.push(l).push(r));
            assert(stack.last() == inner);
            assert(stack.drop_last() =~= operators);
            lemma_reduce_top(values, l, r, inner);
        },
    }
}

/// The machine on a sum and the `+` or `-` after it, above a screened base:
/// it leaves on the stacks the values of the pieces into which it has cut
/// the sum, the operators that stood before the cuts, and the new operator;
/// or fails with the first piece that fails.
pub proof fn lemma_sum_before_operator(
    table: Map<Seq<u8>, i32>,
    values: Seq<i32>,
    operators: Seq<u8>,
    sum: Sum,
    op: u8,
)
    requires
        screened(operators),
        sum.well_formed(),
        op == PLUS || op == MINUS,
    ensures
        (match settled_run(table, resting(values, operators), sum.text()) {
            Ok(s) => step(table, s, op),
            Err(e) => Err(e),
        }) == match values_of(table, sum.pieces_before_operator().0) {
            Ok(settled) => Ok::<Machine, Fault>(
                resting(values + settled, operators + sum.pieces_before_operator().1.push(op)),
            ),
            Err(e) => Err(e),
        },
    decreases sum, 1nat,
{
    lemma_sum(table, values, operators, sum);
    match sum {
        Sum::Single(product) => {
            let last = product.regrouped();
            let only = Sum::Single(last);
            let pieces = sum.pieces_before_operator().0;
            assert(pieces.drop_last() =~= Seq::<Sum>::empty());
            assert(values_of(table, Seq::<Sum>::empty()) == Ok::<Seq<i32>, Fault>(Seq::empty()));
            assert(pieces.last() == only);
            assert(only.value(table) == last.value(table));
            lemma_operator_kept(product);
            if pending_product(table, last) is Ok {
                lemma_first_factors(table, values, operators, last, op);
                match last.value(table) {
                    Ok(v) => {
                        assert(values + Seq::<i32>::empty().push(v) =~= values.push(v));
                        assert(operators + Seq::<u8>::empty().push(op) =~= operators.push(op));
                    },
                    Err(_) => {},
                }
            } else {
                lemma_pending_product_fails(table, last);
            }
        },
        Sum::Plus(left, inner, right) => {
            let (earlier, cuts) = left.pieces_before_operator();
            let last = right.regrouped();
            lemma_pieces_shape(*left);
            lemma_operator_kept(right);
            lemma_values_of_len(table, earlier);
            lemma_values_of_extended(table, earlier, inner, last);
            let only = Sum::Single(last);
            assert(only.value(table) == last.value(table));
            assert(earlier.push(only).drop_last() =~= earlier);
            match values_of(table, earlier) {
                Ok(settled) => {
                    if pending_product(table, last) is Ok {
                        let (above, pending) = pending_product(table, last)->Ok_0;
                        let under = values + settled;
                        let stack = operators + cuts.push(inner);
                        assert(values + (settled + above) =~= under + above);
                        assert(operators + (cuts.push(inner) + pending) =~= stack + pending);
                        assert(stack.last() == inner);
                        assert(under.last() == settled.last());
                        lemma_operator_after_product(table, under, stack, last, op);
                        assert(under.drop_last() =~= values + settled.drop_last());
                        assert(stack.drop_last() =~= operators + cuts);
                        lemma_stacks_above_base(
                            values,
                            operators,
                            settled,
                            cuts,
                            inner,
                            op,
                        );
                    } else {
                        lemma_pending_product_fails(table, last);

                    }
                },
                Err(_) => {

                },
            }
        },
    }
}

/// Stacks above a base, written in two ways.
pub proof fn lemma_stacks_above_base(
    values: Seq<i32>,
    operators: Seq<u8>,
    settled: Seq<i32>,
    cuts: Seq<u8>,
    inner: u8,
    op: u8,
)
    ensures
        forall|v: i32|
            #![trigger settled.push(v)]
            (values + settled).push(v) == values + settled.push(v),
        forall|v: i32|
            #![trigger settled.drop_last().push(v)]
            settled.len() > 0 ==> (values + settled.drop_last()).push(v) == values
                + settled.drop_last().push(v),
        (operators + cuts.push(inner)).push(op) == operators + cuts.push(inner).push(op),
        (operators + cuts).push(op) == operators + cuts.push(op),
{
    assert forall|v: i32| #![trigger settled.push(v)] (values + settled).push(v) == values
        + settled.push(v) by {
        assert((values + settled).push(v) =~= values + settled.push(v));
    }
    assert forall|v: i32|
        #![trigger settled.drop_last().push(v)]
        settled.len() > 0 implies (values + settled.drop_last()).push(v) == values
        + settled.drop_last().push(v) by {
        assert((values + settled.drop_last()).push(v) =~= values + settled.drop_last().push(v));
    }
    assert((operators + cuts.push(inner)).push(op) =~= operators + cuts.push(inner).push(op));
    assert((operators + cuts).push(op) =~= operators + cuts.push(op));
}

/// The machine on a sum, above a screened base: it leaves behind what
/// [`pending_sum`] says, or fails with the first part of the sum that
/// fails.
pub proof fn lemma_sum(table: Map<Seq<u8>, i32>, values: Seq<i32>, operators: Seq<u8>, sum: Sum)
    requires
        screened(operators),
        sum.well_formed(),
    ensures
        settled_run(table, resting(values, operators), sum.text()) == match pending_sum(
            table,
            sum,
        ) {
            Ok((above, pending)) => Ok::<Machine, Fault>(
                resting(values + above, operators + pending),
            ),
            Err(e) => Err(e),
        },
    decreases sum, 0nat,
{
    let m = resting(values, operators);
    match sum {
        Sum::Single(product) => {
            lemma_product(table, values, operators, product);
        },
        Sum::Plus(left, op, right) => {
            let first = *left;
            let (earlier, cuts) = first.pieces_before_operator();
            lemma_sum_before_operator(table, values, operators, first, op);
            lemma_settled_run_split(table, m, first.text(), op, right.text());
            match values_of(table, earlier) {
                Ok(settled) => {
                    let stack = operators + cuts.push(op);
                    assert(stack.last() == op);
                    lemma_product(table, values + settled, stack, right);
                    match pending_product(table, right.regrouped()) {
                        Ok((above, pending)) => {
                            assert(values + settled + above =~= values + (settled + above));
                            assert(stack + pending =~= operators + (cuts.push(op) + pending));
                        },
                        Err(_) => {},
                    }
                },
                Err(_) => {},
            }
        },
    }
}

/// On the text of every well-formed sum, the evaluation is that of ordinary
/// arithmetic on the sum as the scan groups it: `*` and `/` bind tighter
/// than `+` and `-`, operators that bind alike are applied from left to
/// right, parentheses group, and division rounds towards zero. Each
/// operation is one on 32-bit integers, and the evaluation fails exactly
/// where the arithmetic does, with the same failure.
pub proof fn lemma_scan_regroups(table: Map<Seq<u8>, i32>, sum: Sum)
    requires
        sum.well_formed(),
    ensures
        evaluation(table, sum.text()) == sum.regrouped().value(table),
{
    let none = Seq::<i32>::empty();
    let base = Seq::<u8>::empty();
    assert(initial() == resting(none, base));
    lemma_sum(table, none, base, sum);
    lemma_pending_collapses(table, sum, none, base);
    match run(table, initial(), sum.text()) {
        Ok(last) => {
            lemma_finish_settles(table, last);
            match pending_sum(table, sum) {
                Ok((above, pending)) => {
                    assert(none + above =~= above);
                    assert(base + pending =~= pending);
                },
                Err(_) => {},
            }
        },
        Err(_) => {},
    }
}

/// Where no product of several factors stands between two of the operators
/// `+` and `-`, the scan cuts nothing: the atom is grouped as it is written.
pub proof fn lemma_atom_as_written(atom: Atom)
    requires
        atom.products_at_the_ends(),
    ensures
        atom.regrouped() == atom,
    decreases atom,
{
    match atom {
        Atom::Group(inner) => {
            lemma_sum_as_written(*inner);
        },
        _ => {},
    }
}

/// Where no product of several factors stands between two of the operators
/// `+` and `-`, the scan cuts nothing: the product is grouped as it is
/// written.
pub proof fn lemma_product_as_written(product: Product)
    requires
        product.products_at_the_ends(),
    ensures
        product.regrouped() == product,
    decreases product,
{
    match product {
        Product::Single(atom) => {
            lemma_atom_as_written(atom);
        },
        Product::Times(left, _, right) => {
            lemma_product_as_written(*left);
            lemma_atom_as_written(right);
        },
    }
}

/// A sum whose products after the first are atoms is one piece when an
/// operator follows it.
pub proof fn lemma_one_piece(sum: Sum)
    requires
        sum.products_at_the_ends(),
        sum.later_products_are_atoms(),
    ensures
        sum.pieces_before_operator() == (seq![sum], Seq::<u8>::empty()),
    decreases sum, 0nat,
{
    match sum {
        Sum::Single(product) => {
            lemma_product_as_written(product);
        },
        Sum::Plus(left, op, right) => {
            lemma_one_piece(*left);
            lemma_product_as_written(right);
            assert(extended(seq![*left], op, right) =~= seq![sum]);
        },
    }
}

/// Where no product of several factors stands between two of the operators
/// `+` and `-`, the scan cuts nothing: the sum is grouped as it is written.
pub proof fn lemma_sum_as_written(sum: Sum)
    requires
        sum.products_at_the_ends(),
    ensures
        sum.regrouped() == sum,
    decreases sum, 1nat,
{
    match sum {
        Sum::Single(product) => {
            lemma_product_as_written(product);
            assert(sum.pieces().0.last() == sum);
        },
        Sum::Plus(left, op, right) => {
            lemma_one_piece(*left);
            lemma_product_as_written(right);
            assert(extended(seq![*left], op, right) =~= seq![sum]);
            assert(sum.pieces().0.last() == sum);
        },
    }
}

/// On every well-formed expression in which no product of several factors
/// stands between two of the operators `+` and `-`, the evaluation is that
/// of ordinary infix arithmetic: `*` and `/` bind tighter than `+` and `-`,
/// operators that bind alike are applied from left to right, parentheses
/// group, and division rounds towards zero. Each operation is one on 32-bit
/// integers, and the evaluation fails exactly where the arithmetic does,
/// with the same failure.
pub proof fn lemma_standard_arithmetic(table: Map<Seq<u8>, i32>, sum: Sum)
    requires
        sum.well_formed(),
        sum.products_at_the_ends(),
    ensures
        evaluation(table, sum.text()) == sum.value(table),
{
    lemma_scan_regroups(table, sum);
    lemma_sum_as_written(sum);
}

} // verus!
