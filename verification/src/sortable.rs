//! The total order each orderable SQL type uses for an in-memory
//! `ORDER BY`. `Float` has none, as `f64` has no total order.
use vstd::prelude::*;

use core::cmp::Ordering;
use crate::compare::{bool_order, bytes_order, lemma_bytes_order_antisym, lemma_bytes_order_trans, compare_bool, compare_i64, compare_text, i64_order, outcome};
use crate::repr::{Repr, Rust};
use crate::sql_types::{Boolean, Integer, Text};
use vstd::string::StringSliceAdditionalSpecFns;

verus! {

/// The `Ordering` of a three-way outcome: negative, zero or positive.
pub open spec fn ordering_of(c: int) -> Ordering {
    if c < 0 {
        Ordering::Less
    } else if c == 0 {
        Ordering::Equal
    } else {
        Ordering::Greater
    }
}

/// A three-way outcome reads as `Less` when negative, `Equal` when zero
/// and `Greater` when positive.
pub proof fn lemma_ordering_of_sign(c: int)
    ensures
        (ordering_of(c) == Ordering::Less) == (c < 0),
        (ordering_of(c) == Ordering::Equal) == (c == 0),
        (ordering_of(c) == Ordering::Greater) == (c > 0),
{
}

/// The `Ordering` of a three-way outcome.
fn to_ordering(c: i8) -> (r: Ordering)
    ensures
        r == ordering_of(outcome(c)),
{
    if c < 0 {
        Ordering::Less
    } else if c == 0 {
        Ordering::Equal
    } else {
        Ordering::Greater
    }
}

/// SQL types that may appear in `ORDER BY`, with the total order used to
/// sort their values in memory.
pub trait Sortable: for<'x> Repr<'x> {
    /// How `a` compares with `b`: negative, zero or positive.
    spec fn spec_order<'x>(a: Rust<'x, Self>, b: Rust<'x, Self>) -> int;

    /// The order is antisymmetric, takes the values -1, 0 and 1, and is
    /// transitive: a total preorder.
    proof fn lemma_order_laws<'x>(a: Rust<'x, Self>, b: Rust<'x, Self>, c: Rust<'x, Self>)
        ensures
            -1 <= Self::spec_order(a, b) <= 1,
            Self::spec_order(a, b) == -Self::spec_order(b, a),
            Self::spec_order(a, b) <= 0 && Self::spec_order(b, c) <= 0 ==> Self::spec_order(a, c) <= 0,
    ;

    /// The same values compare the same way.
    proof fn lemma_order_congruent<'x>(a1: Rust<'x, Self>, b1: Rust<'x, Self>, a2: Rust<'x, Self>, b2: Rust<'x, Self>)
        requires
            <Self as Repr<'x>>::spec_same(a1, a2),
            <Self as Repr<'x>>::spec_same(b1, b2),
        ensures
            Self::spec_order(a1, b1) == Self::spec_order(a2, b2),
    ;

    /// Total order over this SQL type's values.
    fn compare<'x>(a: Rust<'x, Self>, b: Rust<'x, Self>) -> (r: Ordering)
        ensures
            r == ordering_of(Self::spec_order(a, b)),
    ;
}

impl Sortable for Integer {
    open spec fn spec_order<'x>(a: i64, b: i64) -> int {
        i64_order(a, b)
    }

    proof fn lemma_order_laws<'x>(a: i64, b: i64, c: i64) {
    }

    proof fn lemma_order_congruent<'x>(a1: i64, b1: i64, a2: i64, b2: i64) {
    }

    fn compare<'x>(a: i64, b: i64) -> (r: Ordering) {
        to_ordering(compare_i64(a, b))
    }
}

impl Sortable for Text {
    /// By UTF-8 bytes, which is Rust's order on `str`; a database orders
    /// by the column's collation and may disagree on case and non-ASCII text.
    open spec fn spec_order<'x>(a: &'x str, b: &'x str) -> int {
        bytes_order(a.spec_bytes(), b.spec_bytes())
    }

    proof fn lemma_order_laws<'x>(a: &'x str, b: &'x str, c: &'x str) {
        lemma_bytes_order_antisym(a.spec_bytes(), b.spec_bytes());
        if bytes_order(a.spec_bytes(), b.spec_bytes()) <= 0 && bytes_order(b.spec_bytes(), c.spec_bytes()) <= 0 {
            lemma_bytes_order_trans(a.spec_bytes(), b.spec_bytes(), c.spec_bytes());
        }
    }

    proof fn lemma_order_congruent<'x>(a1: &'x str, b1: &'x str, a2: &'x str, b2: &'x str) {
    }

    fn compare<'x>(a: &'x str, b: &'x str) -> (r: Ordering) {
        to_ordering(compare_text(a, b))
    }
}

impl Sortable for Boolean {
    /// `false` before `true`.
    open spec fn spec_order<'x>(a: bool, b: bool) -> int {
        bool_order(a, b)
    }

    proof fn lemma_order_laws<'x>(a: bool, b: bool, c: bool) {
    }

    proof fn lemma_order_congruent<'x>(a1: bool, b1: bool, a2: bool, b2: bool) {
    }

    fn compare<'x>(a: bool, b: bool) -> (r: Ordering) {
        to_ordering(compare_bool(a, b))
    }
}

} // verus!
