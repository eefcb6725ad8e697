//! SQL's three-valued logic, evaluated in memory over the representations
//! that [`Repr`] assigns: `Nullable<Boolean>` is `Option<bool>`, TRUE, FALSE,
//! or `None` for NULL (UNKNOWN).
//!
//! The rules follow SQL (and SQLite): `NULL = NULL` is NULL, `NULL AND FALSE`
//! is FALSE, `NULL AND TRUE` is NULL, `NULL OR TRUE` is TRUE, `NULL OR FALSE`
//! is NULL, `NOT NULL` is NULL, and `IS NULL` is never NULL.
use vstd::prelude::*;

use crate::like::{like_match, like_matches};
use crate::repr::{CompareOut, LogicOut, NegateOut, Repr, Rust};
use crate::sql_types::{Boolean, CompareWith, Integer, LogicWith, Negate, Nullable, Text, WhereClause};

verus! {

// ═══════════════════════════════════════════════════════════════════════
// Kleene logic
// ═══════════════════════════════════════════════════════════════════════

/// Kleene `AND`: FALSE if either side is FALSE, else NULL if either is NULL,
/// else TRUE.
pub open spec fn kleene_and(a: Option<bool>, b: Option<bool>) -> Option<bool> {
    if a == Some(false) || b == Some(false) {
        Some(false)
    } else if a is None || b is None {
        None
    } else {
        Some(true)
    }
}

/// Kleene `OR`: TRUE if either side is TRUE, else NULL if either is NULL,
/// else FALSE.
pub open spec fn kleene_or(a: Option<bool>, b: Option<bool>) -> Option<bool> {
    if a == Some(true) || b == Some(true) {
        Some(true)
    } else if a is None || b is None {
        None
    } else {
        Some(false)
    }
}

/// Kleene `NOT`: NULL stays NULL.
pub open spec fn kleene_not(a: Option<bool>) -> Option<bool> {
    match a {
        Some(b) => Some(!b),
        None => None,
    }
}

/// The `WHERE` collapse: only TRUE keeps a row.
pub open spec fn keeps(a: Option<bool>) -> bool {
    a == Some(true)
}

/// Kleene `AND`.
pub fn and3(a: Option<bool>, b: Option<bool>) -> (r: Option<bool>)
    ensures
        r == kleene_and(a, b),
{
    match (a, b) {
        (Some(false), _) | (_, Some(false)) => Some(false),
        (Some(true), Some(true)) => Some(true),
        _ => None,
    }
}

/// Kleene `OR`.
pub fn or3(a: Option<bool>, b: Option<bool>) -> (r: Option<bool>)
    ensures
        r == kleene_or(a, b),
{
    match (a, b) {
        (Some(true), _) | (_, Some(true)) => Some(true),
        (Some(false), Some(false)) => Some(false),
        _ => None,
    }
}

/// Kleene `NOT`.
pub fn not3(a: Option<bool>) -> (r: Option<bool>)
    ensures
        r == kleene_not(a),
{
    match a {
        Some(b) => Some(!b),
        None => None,
    }
}

/// Kleene `AND` and `OR` are commutative and associative.
pub proof fn lemma_kleene_commutative_associative(a: Option<bool>, b: Option<bool>, c: Option<bool>)
    ensures
        kleene_and(a, b) == kleene_and(b, a),
        kleene_or(a, b) == kleene_or(b, a),
        kleene_and(kleene_and(a, b), c) == kleene_and(a, kleene_and(b, c)),
        kleene_or(kleene_or(a, b), c) == kleene_or(a, kleene_or(b, c)),
{
}

/// De Morgan's laws hold in Kleene logic, and `NOT` is an involution.
pub proof fn lemma_kleene_de_morgan(a: Option<bool>, b: Option<bool>)
    ensures
        kleene_not(kleene_and(a, b)) == kleene_or(kleene_not(a), kleene_not(b)),
        kleene_not(kleene_or(a, b)) == kleene_and(kleene_not(a), kleene_not(b)),
        kleene_not(kleene_not(a)) == a,
{
}

/// On known values Kleene logic is ordinary two-valued logic.
pub proof fn lemma_kleene_two_valued(x: bool, y: bool)
    ensures
        kleene_and(Some(x), Some(y)) == Some(x && y),
        kleene_or(Some(x), Some(y)) == Some(x || y),
        kleene_not(Some(x)) == Some(!x),
{
}

/// The collapse to two values distributes over `AND` and `OR` ...
pub proof fn lemma_keeps_distributes(a: Option<bool>, b: Option<bool>)
    ensures
        keeps(kleene_and(a, b)) == (keeps(a) && keeps(b)),
        keeps(kleene_or(a, b)) == (keeps(a) || keeps(b)),
{
    match a {
        Some(x) => match b {
            Some(y) => {},
            None => {},
        },
        None => match b {
            Some(y) => {},
            None => {},
        },
    }
}

/// ... but not over `NOT`: `NOT NULL` is dropped, and so is `NULL`.
pub proof fn lemma_keeps_not_over_negation()
    ensures
        !keeps(kleene_not(None)),
        !keeps(None),
        keeps(kleene_not(None)) != !keeps(None),
{
}

// ═══════════════════════════════════════════════════════════════════════
// NULL checks and the WHERE collapse
// ═══════════════════════════════════════════════════════════════════════

/// `IS NULL`: never NULL itself. A value of a non-nullable type is never NULL.
pub trait NullCheck<'x>: Repr<'x> {
    /// Whether `v` is SQL NULL.
    spec fn spec_is_null(v: Rust<'x, Self>) -> bool;

    /// The same values are NULL alike.
    proof fn lemma_is_null_congruent(a: Rust<'x, Self>, b: Rust<'x, Self>)
        requires
            Self::spec_same(a, b),
        ensures
            Self::spec_is_null(a) == Self::spec_is_null(b),
    ;

    /// Whether `v` is SQL NULL.
    fn is_null(v: Rust<'x, Self>) -> (r: bool)
        ensures
            r == Self::spec_is_null(v),
    ;
}

impl<'x> NullCheck<'x> for Integer {
    open spec fn spec_is_null(v: i64) -> bool {
        false
    }

    proof fn lemma_is_null_congruent(a: i64, b: i64) {
    }

    fn is_null(_v: i64) -> (r: bool) {
        false
    }
}

impl<'x> NullCheck<'x> for Text {
    open spec fn spec_is_null(v: &'x str) -> bool {
        false
    }

    proof fn lemma_is_null_congruent(a: &'x str, b: &'x str) {
    }

    fn is_null(_v: &'x str) -> (r: bool) {
        false
    }
}

impl<'x> NullCheck<'x> for Boolean {
    open spec fn spec_is_null(v: bool) -> bool {
        false
    }

    proof fn lemma_is_null_congruent(a: bool, b: bool) {
    }

    fn is_null(_v: bool) -> (r: bool) {
        false
    }
}

impl<'x, T: Repr<'x>> NullCheck<'x> for Nullable<T> {
    open spec fn spec_is_null(v: Option<Rust<'x, T>>) -> bool {
        v is None
    }

    proof fn lemma_is_null_congruent(a: Option<Rust<'x, T>>, b: Option<Rust<'x, T>>) {
    }

    fn is_null(v: Option<Rust<'x, T>>) -> (r: bool) {
        v.is_none()
    }
}

/// Predicate values, and the one place three values collapse to two: a
/// `WHERE` clause keeps a row when the predicate is TRUE, and drops it when
/// it is FALSE or NULL.
pub trait TruthValue<'x>: WhereClause + Repr<'x> {
    /// The three-valued reading of `v`: `None` is NULL.
    spec fn spec_tri(v: Rust<'x, Self>) -> Option<bool>;

    /// The same values read the same.
    proof fn lemma_tri_congruent(a: Rust<'x, Self>, b: Rust<'x, Self>)
        requires
            Self::spec_same(a, b),
        ensures
            Self::spec_tri(a) == Self::spec_tri(b),
    ;

    /// The three-valued reading of `v`.
    fn to_tri(v: Rust<'x, Self>) -> (r: Option<bool>)
        ensures
            r == Self::spec_tri(v),
    ;

    /// Whether `v` keeps a row: TRUE does; FALSE and NULL do not.
    fn is_true(v: Rust<'x, Self>) -> (r: bool)
        ensures
            r == keeps(Self::spec_tri(v)),
    {
        match Self::to_tri(v) {
            Some(b) => b,
            None => false,
        }
    }
}

impl<'x> TruthValue<'x> for Boolean {
    open spec fn spec_tri(v: bool) -> Option<bool> {
        Some(v)
    }

    proof fn lemma_tri_congruent(a: bool, b: bool) {
    }

    fn to_tri(v: bool) -> (r: Option<bool>) {
        Some(v)
    }
}

impl<'x> TruthValue<'x> for Nullable<Boolean> {
    open spec fn spec_tri(v: Option<bool>) -> Option<bool> {
        v
    }

    proof fn lemma_tri_congruent(a: Option<bool>, b: Option<bool>) {
    }

    fn to_tri(v: Option<bool>) -> (r: Option<bool>) {
        v
    }
}

// ═══════════════════════════════════════════════════════════════════════
// AND / OR / NOT
// ═══════════════════════════════════════════════════════════════════════

/// Kleene `AND` / `OR` lifted over nullability. The right operand is a
/// closure so that `FALSE AND ..` and `TRUE OR ..` do not evaluate it.
pub trait Logic3<'x, Rhs: Repr<'x>>: LogicWith<Rhs> + Repr<'x> where <Self as LogicWith<Rhs>>::Out: Repr<'x> {
    /// `l AND r`.
    spec fn spec_and(
        l: Rust<'x, Self>,
        r: Rust<'x, Rhs>,
    ) -> LogicOut<'x, Self, Rhs>;

    /// `l OR r`.
    spec fn spec_or(
        l: Rust<'x, Self>,
        r: Rust<'x, Rhs>,
    ) -> LogicOut<'x, Self, Rhs>;

    /// `l` alone decides `AND`: it is FALSE.
    spec fn and_decided(l: Rust<'x, Self>) -> bool;

    /// `l` alone decides `OR`: it is TRUE.
    spec fn or_decided(l: Rust<'x, Self>) -> bool;

    /// The same operands combine the same way.
    proof fn lemma_logic_congruent(l1: Rust<'x, Self>, r1: Rust<'x, Rhs>, l2: Rust<'x, Self>, r2: Rust<'x, Rhs>)
        requires
            Self::spec_same(l1, l2),
            Rhs::spec_same(r1, r2),
        ensures
            Self::spec_and(l1, r1) == Self::spec_and(l2, r2),
            Self::spec_or(l1, r1) == Self::spec_or(l2, r2),
    ;

    /// Kleene `AND`; evaluates `r` only when `l` does not decide.
    fn and3<F: FnOnce() -> Rust<'x, Rhs>>(
        l: Rust<'x, Self>,
        r: F,
    ) -> (res: LogicOut<'x, Self, Rhs>)
        requires
            call_requires(r, ()),
        ensures
            Self::and_decided(l) ==> forall|rv: Rust<'x, Rhs>| #[trigger] Self::spec_and(l, rv) == res,
            !Self::and_decided(l) ==> exists|rv: Rust<'x, Rhs>|
                call_ensures(r, (), rv) && res == #[trigger] Self::spec_and(l, rv),
    ;

    /// Kleene `OR`; evaluates `r` only when `l` does not decide.
    fn or3<F: FnOnce() -> Rust<'x, Rhs>>(
        l: Rust<'x, Self>,
        r: F,
    ) -> (res: LogicOut<'x, Self, Rhs>)
        requires
            call_requires(r, ()),
        ensures
            Self::or_decided(l) ==> forall|rv: Rust<'x, Rhs>| #[trigger] Self::spec_or(l, rv) == res,
            !Self::or_decided(l) ==> exists|rv: Rust<'x, Rhs>|
                call_ensures(r, (), rv) && res == #[trigger] Self::spec_or(l, rv),
    ;
}

impl<'x> Logic3<'x, Boolean> for Boolean {
    open spec fn spec_and(l: bool, r: bool) -> bool {
        l && r
    }

    open spec fn spec_or(l: bool, r: bool) -> bool {
        l || r
    }

    open spec fn and_decided(l: bool) -> bool {
        !l
    }

    open spec fn or_decided(l: bool) -> bool {
        l
    }

    proof fn lemma_logic_congruent(l1: bool, r1: bool, l2: bool, r2: bool) {
    }

    fn and3<F: FnOnce() -> bool>(l: bool, r: F) -> (res: bool) {
        if l {
            let rv = r();
            assert(<Boolean as Logic3<'x, Boolean>>::spec_and(l, rv) == rv);
            rv
        } else {
            false
        }
    }

    fn or3<F: FnOnce() -> bool>(l: bool, r: F) -> (res: bool) {
        if l {
            true
        } else {
            let rv = r();
            assert(<Boolean as Logic3<'x, Boolean>>::spec_or(l, rv) == rv);
            rv
        }
    }
}

impl<'x> Logic3<'x, Nullable<Boolean>> for Boolean {
    open spec fn spec_and(l: bool, r: Option<bool>) -> Option<bool> {
        kleene_and(Some(l), r)
    }

    open spec fn spec_or(l: bool, r: Option<bool>) -> Option<bool> {
        kleene_or(Some(l), r)
    }

    open spec fn and_decided(l: bool) -> bool {
        !l
    }

    open spec fn or_decided(l: bool) -> bool {
        l
    }

    proof fn lemma_logic_congruent(l1: bool, r1: Option<bool>, l2: bool, r2: Option<bool>) {
    }

    fn and3<F: FnOnce() -> Option<bool>>(l: bool, r: F) -> (res: Option<bool>) {
        if l {
            let rv = r();
            assert(<Boolean as Logic3<'x, Nullable<Boolean>>>::spec_and(l, rv) == rv);
            rv
        } else {
            Some(false)
        }
    }

    fn or3<F: FnOnce() -> Option<bool>>(l: bool, r: F) -> (res: Option<bool>) {
        if l {
            Some(true)
        } else {
            let rv = r();
            assert(<Boolean as Logic3<'x, Nullable<Boolean>>>::spec_or(l, rv) == rv);
            rv
        }
    }
}

impl<'x> Logic3<'x, Boolean> for Nullable<Boolean> {
    open spec fn spec_and(l: Option<bool>, r: bool) -> Option<bool> {
        kleene_and(l, Some(r))
    }

    open spec fn spec_or(l: Option<bool>, r: bool) -> Option<bool> {
        kleene_or(l, Some(r))
    }

    open spec fn and_decided(l: Option<bool>) -> bool {
        l == Some(false)
    }

    open spec fn or_decided(l: Option<bool>) -> bool {
        l == Some(true)
    }

    proof fn lemma_logic_congruent(l1: Option<bool>, r1: bool, l2: Option<bool>, r2: bool) {
    }

    fn and3<F: FnOnce() -> bool>(l: Option<bool>, r: F) -> (res: Option<bool>) {
        match l {
            Some(false) => Some(false),
            other => {
                let rv = r();
                let res = if rv {
                    other
                } else {
                    Some(false)
                };
                assert(<Nullable<Boolean> as Logic3<'x, Boolean>>::spec_and(l, rv) == res);
                res
            },
        }
    }

    fn or3<F: FnOnce() -> bool>(l: Option<bool>, r: F) -> (res: Option<bool>) {
        match l {
            Some(true) => Some(true),
            other => {
                let rv = r();
                let res = if rv {
                    Some(true)
                } else {
                    other
                };
                assert(<Nullable<Boolean> as Logic3<'x, Boolean>>::spec_or(l, rv) == res);
                res
            },
        }
    }
}

impl<'x> Logic3<'x, Nullable<Boolean>> for Nullable<Boolean> {
    open spec fn spec_and(l: Option<bool>, r: Option<bool>) -> Option<bool> {
        kleene_and(l, r)
    }

    open spec fn spec_or(l: Option<bool>, r: Option<bool>) -> Option<bool> {
        kleene_or(l, r)
    }

    open spec fn and_decided(l: Option<bool>) -> bool {
        l == Some(false)
    }

    open spec fn or_decided(l: Option<bool>) -> bool {
        l == Some(true)
    }

    proof fn lemma_logic_congruent(l1: Option<bool>, r1: Option<bool>, l2: Option<bool>, r2: Option<bool>) {
    }

    fn and3<F: FnOnce() -> Option<bool>>(l: Option<bool>, r: F) -> (res: Option<bool>) {
        match l {
            Some(false) => Some(false),
            other => {
                let rv = r();
                let res = and3(other, rv);
                assert(<Nullable<Boolean> as Logic3<'x, Nullable<Boolean>>>::spec_and(l, rv) == res);
                res
            },
        }
    }

    fn or3<F: FnOnce() -> Option<bool>>(l: Option<bool>, r: F) -> (res: Option<bool>) {
        match l {
            Some(true) => Some(true),
            other => {
                let rv = r();
                let res = or3(other, rv);
                assert(<Nullable<Boolean> as Logic3<'x, Nullable<Boolean>>>::spec_or(l, rv) == res);
                res
            },
        }
    }
}

/// `NOT` lifted over nullability: `NOT NULL` is NULL.
pub trait Negate3<'x>: Negate + Repr<'x> where <Self as Negate>::Out: Repr<'x> {
    /// `NOT v`.
    spec fn spec_not(v: Rust<'x, Self>) -> NegateOut<'x, Self>;

    /// The same values negate the same way.
    proof fn lemma_not_congruent(a: Rust<'x, Self>, b: Rust<'x, Self>)
        requires
            Self::spec_same(a, b),
        ensures
            Self::spec_not(a) == Self::spec_not(b),
    ;

    /// Three-valued `NOT`.
    fn not3(v: Rust<'x, Self>) -> (r: NegateOut<'x, Self>)
        ensures
            r == Self::spec_not(v),
    ;
}

impl<'x> Negate3<'x> for Boolean {
    open spec fn spec_not(v: bool) -> bool {
        !v
    }

    proof fn lemma_not_congruent(a: bool, b: bool) {
    }

    fn not3(v: bool) -> (r: bool) {
        !v
    }
}

impl<'x> Negate3<'x> for Nullable<Boolean> {
    open spec fn spec_not(v: Option<bool>) -> Option<bool> {
        kleene_not(v)
    }

    proof fn lemma_not_congruent(a: Option<bool>, b: Option<bool>) {
    }

    fn not3(v: Option<bool>) -> (r: Option<bool>) {
        not3(v)
    }
}

// ═══════════════════════════════════════════════════════════════════════
// LIKE
// ═══════════════════════════════════════════════════════════════════════

/// `LIKE` lifted over nullability: `NULL LIKE 'a%'` is NULL.
pub trait Like3<'x, Rhs: Repr<'x>>: CompareWith<Rhs> + Repr<'x> where <Self as CompareWith<Rhs>>::Out: Repr<'x> {
    /// `l LIKE r`.
    spec fn spec_like(
        l: Rust<'x, Self>,
        r: Rust<'x, Rhs>,
    ) -> CompareOut<'x, Self, Rhs>;

    /// The same operands match the same way.
    proof fn lemma_like_congruent(l1: Rust<'x, Self>, r1: Rust<'x, Rhs>, l2: Rust<'x, Self>, r2: Rust<'x, Rhs>)
        requires
            Self::spec_same(l1, l2),
            Rhs::spec_same(r1, r2),
        ensures
            Self::spec_like(l1, r1) == Self::spec_like(l2, r2),
    ;

    /// Three-valued `LIKE`.
    fn like3(
        l: Rust<'x, Self>,
        r: Rust<'x, Rhs>,
    ) -> (res: CompareOut<'x, Self, Rhs>)
        ensures
            res == Self::spec_like(l, r),
    ;
}

impl<'x> Like3<'x, Text> for Text {
    open spec fn spec_like(l: &'x str, r: &'x str) -> bool {
        like_matches(l@, r@)
    }

    proof fn lemma_like_congruent(l1: &'x str, r1: &'x str, l2: &'x str, r2: &'x str) {
    }

    fn like3(l: &'x str, r: &'x str) -> (res: bool) {
        like_match(l, r)
    }
}

impl<'x> Like3<'x, Nullable<Text>> for Text {
    open spec fn spec_like(l: &'x str, r: Option<&'x str>) -> Option<bool> {
        match r {
            Some(p) => Some(like_matches(l@, p@)),
            None => None,
        }
    }

    proof fn lemma_like_congruent(l1: &'x str, r1: Option<&'x str>, l2: &'x str, r2: Option<&'x str>) {
    }

    fn like3(l: &'x str, r: Option<&'x str>) -> (res: Option<bool>) {
        match r {
            Some(p) => Some(like_match(l, p)),
            None => None,
        }
    }
}

impl<'x> Like3<'x, Text> for Nullable<Text> {
    open spec fn spec_like(l: Option<&'x str>, r: &'x str) -> Option<bool> {
        match l {
            Some(t) => Some(like_matches(t@, r@)),
            None => None,
        }
    }

    proof fn lemma_like_congruent(l1: Option<&'x str>, r1: &'x str, l2: Option<&'x str>, r2: &'x str) {
    }

    fn like3(l: Option<&'x str>, r: &'x str) -> (res: Option<bool>) {
        match l {
            Some(t) => Some(like_match(t, r)),
            None => None,
        }
    }
}

impl<'x> Like3<'x, Nullable<Text>> for Nullable<Text> {
    open spec fn spec_like(l: Option<&'x str>, r: Option<&'x str>) -> Option<bool> {
        match (l, r) {
            (Some(t), Some(p)) => Some(like_matches(t@, p@)),
            _ => None,
        }
    }

    proof fn lemma_like_congruent(l1: Option<&'x str>, r1: Option<&'x str>, l2: Option<&'x str>, r2: Option<&'x str>) {
    }

    fn like3(l: Option<&'x str>, r: Option<&'x str>) -> (res: Option<bool>) {
        match (l, r) {
            (Some(t), Some(p)) => Some(like_match(t, p)),
            _ => None,
        }
    }
}


/// Kleene `AND` read three-valued: the truth of `l AND r` is the Kleene
/// conjunction of the truths of `l` and `r`.
pub trait TriLogic<'x, Rhs: TruthValue<'x>>: Logic3<'x, Rhs> + TruthValue<'x>
    where <Self as LogicWith<Rhs>>::Out: TruthValue<'x>
{
    /// `AND` is Kleene conjunction of the operands' truths.
    proof fn lemma_and_truth(l: Rust<'x, Self>, r: Rust<'x, Rhs>)
        ensures
            <<Self as LogicWith<Rhs>>::Out as TruthValue<'x>>::spec_tri(Self::spec_and(l, r)) == kleene_and(
                Self::spec_tri(l),
                Rhs::spec_tri(r),
            ),
    ;
}

impl<'x> TriLogic<'x, Boolean> for Boolean {
    proof fn lemma_and_truth(l: bool, r: bool) {
    }
}

impl<'x> TriLogic<'x, Nullable<Boolean>> for Boolean {
    proof fn lemma_and_truth(l: bool, r: Option<bool>) {
    }
}

impl<'x> TriLogic<'x, Boolean> for Nullable<Boolean> {
    proof fn lemma_and_truth(l: Option<bool>, r: bool) {
    }
}

impl<'x> TriLogic<'x, Nullable<Boolean>> for Nullable<Boolean> {
    proof fn lemma_and_truth(l: Option<bool>, r: Option<bool>) {
    }
}

} // verus!

