//! The Rust representation of each SQL type, for in-memory evaluation:
//! `Integer` is `i64`, `Text` is `&str`, `Boolean` is `bool`, and
//! `Nullable<T>` is `Option` of `T`'s representation.
use vstd::prelude::*;

use crate::sql_types::{Boolean, CompareWith, Integer, LogicWith, Negate, Nullable, Text};

verus! {

/// The Rust type an expression of a SQL type evaluates to in memory.
pub trait Repr<'r> {
    /// The Rust type of a value of this SQL type.
    type Rust;

    /// Whether `a` and `b` are the same SQL value: equal numbers and
    /// booleans, texts with the same characters, NULL and NULL.
    spec fn spec_same(a: Self::Rust, b: Self::Rust) -> bool;

    /// Every value is the same as itself.
    proof fn lemma_same_refl(a: Self::Rust)
        ensures
            Self::spec_same(a, a),
    ;
}

impl<'r> Repr<'r> for Integer {
    type Rust = i64;

    open spec fn spec_same(a: i64, b: i64) -> bool {
        a == b
    }

    proof fn lemma_same_refl(a: i64) {
    }
}

impl<'r> Repr<'r> for Text {
    type Rust = &'r str;

    open spec fn spec_same(a: &'r str, b: &'r str) -> bool {
        a@ == b@
    }

    proof fn lemma_same_refl(a: &'r str) {
    }
}

impl<'r> Repr<'r> for Boolean {
    type Rust = bool;

    open spec fn spec_same(a: bool, b: bool) -> bool {
        a == b
    }

    proof fn lemma_same_refl(a: bool) {
    }
}

/// A nullable SQL type is `Option` of its base type's representation.
impl<'r, T: Repr<'r>> Repr<'r> for Nullable<T> {
    type Rust = Option<T::Rust>;

    open spec fn spec_same(a: Option<T::Rust>, b: Option<T::Rust>) -> bool {
        match (a, b) {
            (Some(x), Some(y)) => T::spec_same(x, y),
            (None, None) => true,
            _ => false,
        }
    }

    proof fn lemma_same_refl(a: Option<T::Rust>) {
        if let Some(x) = a {
            T::lemma_same_refl(x);
        }
    }
}

/// The Rust value an expression of SQL type `S` evaluates to.
pub type Rust<'r, S> = <S as Repr<'r>>::Rust;

/// Whether `a` and `b` are the same value of SQL type `T`.
pub open spec fn same<'r, T: Repr<'r>>(a: Rust<'r, T>, b: Rust<'r, T>) -> bool {
    T::spec_same(a, b)
}

/// Every value of SQL type `T` is the same as itself.
pub proof fn lemma_same_refl<'r, T: Repr<'r>>(a: Rust<'r, T>)
    ensures
        same::<T>(a, a),
{
    T::lemma_same_refl(a);
}

/// Two values are the same SQL value exactly when they are equal numbers
/// or booleans, texts with the same characters, or both NULL.
pub proof fn lemma_same_means_equal<'r>(i: i64, j: i64, s: &'r str, t: &'r str, b: bool, c: bool, o: Option<i64>, p: Option<i64>)
    ensures
        same::<Integer>(i, j) == (i == j),
        same::<Text>(s, t) == (s@ == t@),
        same::<Boolean>(b, c) == (b == c),
        same::<Nullable<Integer>>(o, p) == (o == p),
{
}

/// The Rust value of a comparison of `L` with `R`.
pub type CompareOut<'r, L, R> = <<L as CompareWith<R>>::Out as Repr<'r>>::Rust;

/// The Rust value of `L AND R` / `L OR R`.
pub type LogicOut<'r, L, R> = <<L as LogicWith<R>>::Out as Repr<'r>>::Rust;

/// The Rust value of `NOT S`.
pub type NegateOut<'r, S> = <<S as Negate>::Out as Repr<'r>>::Rust;

} // verus!
