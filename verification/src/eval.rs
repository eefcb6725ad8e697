//! The in-memory half of [`Expr`]: each expression node evaluated against
//! one borrowed row, to the Rust value of its SQL type.
use vstd::prelude::*;

use crate::compare::{Cmp3, CmpOp, OpEq, OpGt, OpGte, OpLt, OpLte, OpNe};
use crate::expr::{And, Expr, Gt, GtEq, IsNotNull, IsNull, Like, Lt, LtEq, Not, NotEq, Or};
use crate::repr::{lemma_same_refl, same, CompareOut, LogicOut, NegateOut, Repr, Rust};
use crate::rows::AlwaysTrue;
use crate::sql_types::{CompareWith, Family, LogicWith, Negate, Text};
use crate::tri::{Like3, Logic3, Negate3, NullCheck};
use crate::comparisons::{op_eq, op_gt, op_gte, op_lt, op_lte, op_ne};

verus! {

/// An expression that can be evaluated against a row of type `Row`.
/// Rendering to SQL and evaluating in memory are two readings of one value.
pub trait Eval<'r, Row>: Expr where Self::SqlType: Repr<'r> {
    /// The value of this expression on `row`. Every implementation in this
    /// crate defines it; one that does not leaves it unknown, and nothing
    /// about its value is then proved.
    open spec fn spec_eval(&self, row: &Row) -> Rust<'r, Self::SqlType> {
        arbitrary()
    }

    /// Evaluates this expression against `row`: the same value as
    /// [`spec_eval`](Eval::spec_eval) (for text, the same characters).
    fn eval(&'r self, row: &'r Row) -> (v: Rust<'r, Self::SqlType>)
        ensures
            same::<Self::SqlType>(v, self.spec_eval(row)),
    ;
}

impl<'r, Row> Eval<'r, Row> for i32 {
    open spec fn spec_eval(&self, row: &Row) -> i64 {
        *self as i64
    }

    fn eval(&'r self, _row: &'r Row) -> (v: i64) {
        *self as i64
    }
}

impl<'r, Row> Eval<'r, Row> for i64 {
    open spec fn spec_eval(&self, row: &Row) -> i64 {
        *self
    }

    fn eval(&'r self, _row: &'r Row) -> (v: i64) {
        *self
    }
}

impl<'r, Row> Eval<'r, Row> for bool {
    open spec fn spec_eval(&self, row: &Row) -> bool {
        *self
    }

    fn eval(&'r self, _row: &'r Row) -> (v: bool) {
        *self
    }
}

impl<'r, 'a: 'r, Row> Eval<'r, Row> for &'a str {
    open spec fn spec_eval(&self, row: &Row) -> &'r str {
        *self
    }

    fn eval(&'r self, _row: &'r Row) -> (v: &'r str) {
        *self
    }
}

/// An owned text literal evaluates to its characters, borrowed.
impl<'r, Row> Eval<'r, Row> for String {
    open spec fn spec_eval(&self, row: &Row) -> &'r str {
        choose|s: &'r str| s@ == self@
    }

    fn eval(&'r self, _row: &'r Row) -> (v: &'r str) {
        let v = self.as_str();
        proof {
            assert(exists|s: &'r str| s@ == self@) by {
                assert(v@ == self@);
            }
        }
        v
    }
}

/// A query without a filter keeps every row.
impl<'r, Row> Eval<'r, Row> for AlwaysTrue {
    open spec fn spec_eval(&self, row: &Row) -> bool {
        true
    }

    fn eval(&'r self, _row: &'r Row) -> (v: bool) {
        true
    }
}

/// The comparison of a value of SQL type `L` with one of `R` by an operator
/// that holds where `holds` does: NULL on either side gives NULL.
pub open spec fn compared<'x, L: Cmp3<'x, R>, R: Repr<'x>>(holds: spec_fn(int) -> bool, l: Rust<'x, L>, r: Rust<'x, R>) -> CompareOut<'x, L, R>
    where L::Out: Repr<'x>,
{
    L::spec_cmp3(holds, l, r)
}

/// Compares a value of SQL type `L` with one of `R` by the operator `Op`;
/// the same operands give the same outcome.
fn compare_values<'x, L: Cmp3<'x, R>, R: Repr<'x>, Op: CmpOp>(
    l: Rust<'x, L>,
    r: Rust<'x, R>,
    Ghost(ls): Ghost<Rust<'x, L>>,
    Ghost(rs): Ghost<Rust<'x, R>>,
) -> (res: CompareOut<'x, L, R>)
    where L::Out: Repr<'x>,
    requires
        same::<L>(l, ls),
        same::<R>(r, rs),
    ensures
        same::<L::Out>(res, compared::<L, R>(|c: int| Op::spec_holds(c), ls, rs)),
{
    let res = L::cmp3::<Op>(l, r);
    proof {
        L::lemma_cmp3_congruent(|c: int| Op::spec_holds(c), l, r, ls, rs);
        lemma_same_refl::<L::Out>(res);
    }
    res
}

impl<'r, Row, L: Eval<'r, Row>, R: Eval<'r, Row>> Eval<'r, Row> for crate::expr::Eq<L, R>
    where L::SqlType: Cmp3<'r, R::SqlType>, R::SqlType: Repr<'r>, <L::SqlType as CompareWith<R::SqlType>>::Out: Repr<'r>,
{
    open spec fn spec_eval(&self, row: &Row) -> CompareOut<'r, L::SqlType, R::SqlType> {
        compared::<L::SqlType, R::SqlType>(|c: int| OpEq::spec_holds(c), self.spec_left().spec_eval(row), self.spec_right().spec_eval(row))
    }

    fn eval(&'r self, row: &'r Row) -> (v: CompareOut<'r, L::SqlType, R::SqlType>) {
        compare_values::<L::SqlType, R::SqlType, OpEq>(self.left().eval(row), self.right().eval(row), Ghost(self.spec_left().spec_eval(row)), Ghost(self.spec_right().spec_eval(row)))
    }
}

impl<'r, Row, L: Eval<'r, Row>, R: Eval<'r, Row>> Eval<'r, Row> for NotEq<L, R>
    where L::SqlType: Cmp3<'r, R::SqlType>, R::SqlType: Repr<'r>, <L::SqlType as CompareWith<R::SqlType>>::Out: Repr<'r>,
{
    open spec fn spec_eval(&self, row: &Row) -> CompareOut<'r, L::SqlType, R::SqlType> {
        compared::<L::SqlType, R::SqlType>(|c: int| OpNe::spec_holds(c), self.spec_left().spec_eval(row), self.spec_right().spec_eval(row))
    }

    fn eval(&'r self, row: &'r Row) -> (v: CompareOut<'r, L::SqlType, R::SqlType>) {
        compare_values::<L::SqlType, R::SqlType, OpNe>(self.left().eval(row), self.right().eval(row), Ghost(self.spec_left().spec_eval(row)), Ghost(self.spec_right().spec_eval(row)))
    }
}

impl<'r, Row, L: Eval<'r, Row>, R: Eval<'r, Row>> Eval<'r, Row> for Lt<L, R>
    where L::SqlType: Cmp3<'r, R::SqlType>, R::SqlType: Repr<'r>, <L::SqlType as CompareWith<R::SqlType>>::Out: Repr<'r>,
{
    open spec fn spec_eval(&self, row: &Row) -> CompareOut<'r, L::SqlType, R::SqlType> {
        compared::<L::SqlType, R::SqlType>(|c: int| OpLt::spec_holds(c), self.spec_left().spec_eval(row), self.spec_right().spec_eval(row))
    }

    fn eval(&'r self, row: &'r Row) -> (v: CompareOut<'r, L::SqlType, R::SqlType>) {
        compare_values::<L::SqlType, R::SqlType, OpLt>(self.left().eval(row), self.right().eval(row), Ghost(self.spec_left().spec_eval(row)), Ghost(self.spec_right().spec_eval(row)))
    }
}

impl<'r, Row, L: Eval<'r, Row>, R: Eval<'r, Row>> Eval<'r, Row> for LtEq<L, R>
    where L::SqlType: Cmp3<'r, R::SqlType>, R::SqlType: Repr<'r>, <L::SqlType as CompareWith<R::SqlType>>::Out: Repr<'r>,
{
    open spec fn spec_eval(&self, row: &Row) -> CompareOut<'r, L::SqlType, R::SqlType> {
        compared::<L::SqlType, R::SqlType>(|c: int| OpLte::spec_holds(c), self.spec_left().spec_eval(row), self.spec_right().spec_eval(row))
    }

    fn eval(&'r self, row: &'r Row) -> (v: CompareOut<'r, L::SqlType, R::SqlType>) {
        compare_values::<L::SqlType, R::SqlType, OpLte>(self.left().eval(row), self.right().eval(row), Ghost(self.spec_left().spec_eval(row)), Ghost(self.spec_right().spec_eval(row)))
    }
}

impl<'r, Row, L: Eval<'r, Row>, R: Eval<'r, Row>> Eval<'r, Row> for Gt<L, R>
    where L::SqlType: Cmp3<'r, R::SqlType>, R::SqlType: Repr<'r>, <L::SqlType as CompareWith<R::SqlType>>::Out: Repr<'r>,
{
    open spec fn spec_eval(&self, row: &Row) -> CompareOut<'r, L::SqlType, R::SqlType> {
        compared::<L::SqlType, R::SqlType>(|c: int| OpGt::spec_holds(c), self.spec_left().spec_eval(row), self.spec_right().spec_eval(row))
    }

    fn eval(&'r self, row: &'r Row) -> (v: CompareOut<'r, L::SqlType, R::SqlType>) {
        compare_values::<L::SqlType, R::SqlType, OpGt>(self.left().eval(row), self.right().eval(row), Ghost(self.spec_left().spec_eval(row)), Ghost(self.spec_right().spec_eval(row)))
    }
}

impl<'r, Row, L: Eval<'r, Row>, R: Eval<'r, Row>> Eval<'r, Row> for GtEq<L, R>
    where L::SqlType: Cmp3<'r, R::SqlType>, R::SqlType: Repr<'r>, <L::SqlType as CompareWith<R::SqlType>>::Out: Repr<'r>,
{
    open spec fn spec_eval(&self, row: &Row) -> CompareOut<'r, L::SqlType, R::SqlType> {
        compared::<L::SqlType, R::SqlType>(|c: int| OpGte::spec_holds(c), self.spec_left().spec_eval(row), self.spec_right().spec_eval(row))
    }

    fn eval(&'r self, row: &'r Row) -> (v: CompareOut<'r, L::SqlType, R::SqlType>) {
        compare_values::<L::SqlType, R::SqlType, OpGte>(self.left().eval(row), self.right().eval(row), Ghost(self.spec_left().spec_eval(row)), Ghost(self.spec_right().spec_eval(row)))
    }
}

/// Kleene `AND`: the right operand is evaluated only when the left one does
/// not decide (FALSE decides).
impl<'r, Row, L: Eval<'r, Row>, R: Eval<'r, Row>> Eval<'r, Row> for And<L, R>
    where L::SqlType: Logic3<'r, R::SqlType>, R::SqlType: Repr<'r>, <L::SqlType as LogicWith<R::SqlType>>::Out: Repr<'r>,
{
    open spec fn spec_eval(&self, row: &Row) -> LogicOut<'r, L::SqlType, R::SqlType> {
        <L::SqlType as Logic3<'r, R::SqlType>>::spec_and(self.spec_left().spec_eval(row), self.spec_right().spec_eval(row))
    }

    fn eval(&'r self, row: &'r Row) -> (v: LogicOut<'r, L::SqlType, R::SqlType>) {
        let l = self.left().eval(row);
        let right = self.right();
        let ghost ls = self.spec_left().spec_eval(row);
        let ghost rs = self.spec_right().spec_eval(row);
        let f = || -> (x: Rust<'r, R::SqlType>)
            ensures
                same::<R::SqlType>(x, rs),
            {
                right.eval(row)
            };
        let v = <L::SqlType as Logic3<'r, R::SqlType>>::and3(l, f);
        proof {
            if <L::SqlType as Logic3<'r, R::SqlType>>::and_decided(l) {
                assert(<L::SqlType as Logic3<'r, R::SqlType>>::spec_and(l, rs) == v);
                lemma_same_refl::<R::SqlType>(rs);
                <L::SqlType as Logic3<'r, R::SqlType>>::lemma_logic_congruent(l, rs, ls, rs);
            } else {
                let rv = choose|rv: Rust<'r, R::SqlType>|
                    call_ensures(f, (), rv) && v == #[trigger] <L::SqlType as Logic3<'r, R::SqlType>>::spec_and(l, rv);
                <L::SqlType as Logic3<'r, R::SqlType>>::lemma_logic_congruent(l, rv, ls, rs);
            }
            lemma_same_refl::<<L::SqlType as LogicWith<R::SqlType>>::Out>(v);
        }
        v
    }
}

/// Kleene `OR`: the right operand is evaluated only when the left one does
/// not decide (TRUE decides).
impl<'r, Row, L: Eval<'r, Row>, R: Eval<'r, Row>> Eval<'r, Row> for Or<L, R>
    where L::SqlType: Logic3<'r, R::SqlType>, R::SqlType: Repr<'r>, <L::SqlType as LogicWith<R::SqlType>>::Out: Repr<'r>,
{
    open spec fn spec_eval(&self, row: &Row) -> LogicOut<'r, L::SqlType, R::SqlType> {
        <L::SqlType as Logic3<'r, R::SqlType>>::spec_or(self.spec_left().spec_eval(row), self.spec_right().spec_eval(row))
    }

    fn eval(&'r self, row: &'r Row) -> (v: LogicOut<'r, L::SqlType, R::SqlType>) {
        let l = self.left().eval(row);
        let right = self.right();
        let ghost ls = self.spec_left().spec_eval(row);
        let ghost rs = self.spec_right().spec_eval(row);
        let f = || -> (x: Rust<'r, R::SqlType>)
            ensures
                same::<R::SqlType>(x, rs),
            {
                right.eval(row)
            };
        let v = <L::SqlType as Logic3<'r, R::SqlType>>::or3(l, f);
        proof {
            if <L::SqlType as Logic3<'r, R::SqlType>>::or_decided(l) {
                assert(<L::SqlType as Logic3<'r, R::SqlType>>::spec_or(l, rs) == v);
                lemma_same_refl::<R::SqlType>(rs);
                <L::SqlType as Logic3<'r, R::SqlType>>::lemma_logic_congruent(l, rs, ls, rs);
            } else {
                let rv = choose|rv: Rust<'r, R::SqlType>|
                    call_ensures(f, (), rv) && v == #[trigger] <L::SqlType as Logic3<'r, R::SqlType>>::spec_or(l, rv);
                <L::SqlType as Logic3<'r, R::SqlType>>::lemma_logic_congruent(l, rv, ls, rs);
            }
            lemma_same_refl::<<L::SqlType as LogicWith<R::SqlType>>::Out>(v);
        }
        v
    }
}

/// Kleene `NOT`: NULL stays NULL.
impl<'r, Row, E: Eval<'r, Row>> Eval<'r, Row> for Not<E>
    where E::SqlType: Negate3<'r>, <E::SqlType as Negate>::Out: Repr<'r>,
{
    open spec fn spec_eval(&self, row: &Row) -> NegateOut<'r, E::SqlType> {
        <E::SqlType as Negate3<'r>>::spec_not(self.spec_inner().spec_eval(row))
    }

    fn eval(&'r self, row: &'r Row) -> (v: NegateOut<'r, E::SqlType>) {
        let x = self.inner().eval(row);
        let v = <E::SqlType as Negate3<'r>>::not3(x);
        proof {
            <E::SqlType as Negate3<'r>>::lemma_not_congruent(x, self.spec_inner().spec_eval(row));
            lemma_same_refl::<<E::SqlType as Negate>::Out>(v);
        }
        v
    }
}

/// `LIKE`, with `%` for any run and `_` for one character; ASCII letters
/// match either case, as in SQLite's default `LIKE`. NULL on either side
/// gives NULL.
impl<'r, Row, L: Eval<'r, Row>, R: Eval<'r, Row>> Eval<'r, Row> for Like<L, R>
    where
        L::SqlType: Like3<'r, R::SqlType> + Family<Base = Text>,
        R::SqlType: Repr<'r> + Family<Base = Text>,
        <L::SqlType as CompareWith<R::SqlType>>::Out: Repr<'r>,
{
    open spec fn spec_eval(&self, row: &Row) -> CompareOut<'r, L::SqlType, R::SqlType> {
        <L::SqlType as Like3<'r, R::SqlType>>::spec_like(self.spec_left().spec_eval(row), self.spec_right().spec_eval(row))
    }

    fn eval(&'r self, row: &'r Row) -> (v: CompareOut<'r, L::SqlType, R::SqlType>) {
        let l = self.left().eval(row);
        let r = self.right().eval(row);
        let v = <L::SqlType as Like3<'r, R::SqlType>>::like3(l, r);
        proof {
            <L::SqlType as Like3<'r, R::SqlType>>::lemma_like_congruent(
                l,
                r,
                self.spec_left().spec_eval(row),
                self.spec_right().spec_eval(row),
            );
            lemma_same_refl::<<L::SqlType as CompareWith<R::SqlType>>::Out>(v);
        }
        v
    }
}

impl<'r, Row, E: Eval<'r, Row>> Eval<'r, Row> for IsNull<E> where E::SqlType: NullCheck<'r> {
    open spec fn spec_eval(&self, row: &Row) -> bool {
        <E::SqlType as NullCheck<'r>>::spec_is_null(self.spec_inner().spec_eval(row))
    }

    fn eval(&'r self, row: &'r Row) -> (v: bool) {
        let x = self.inner().eval(row);
        proof {
            <E::SqlType as NullCheck<'r>>::lemma_is_null_congruent(x, self.spec_inner().spec_eval(row));
        }
        <E::SqlType as NullCheck<'r>>::is_null(x)
    }
}

impl<'r, Row, E: Eval<'r, Row>> Eval<'r, Row> for IsNotNull<E> where E::SqlType: NullCheck<'r> {
    open spec fn spec_eval(&self, row: &Row) -> bool {
        !<E::SqlType as NullCheck<'r>>::spec_is_null(self.spec_inner().spec_eval(row))
    }

    fn eval(&'r self, row: &'r Row) -> (v: bool) {
        let x = self.inner().eval(row);
        proof {
            <E::SqlType as NullCheck<'r>>::lemma_is_null_congruent(x, self.spec_inner().spec_eval(row));
        }
        !<E::SqlType as NullCheck<'r>>::is_null(x)
    }
}

/// `None` is NULL; `Some(v)` is `v`'s value.
impl<'r, Row, T: Eval<'r, Row>> Eval<'r, Row> for Option<T> where T::SqlType: Repr<'r> {
    open spec fn spec_eval(&self, row: &Row) -> Option<Rust<'r, T::SqlType>> {
        match self {
            Some(v) => Some(v.spec_eval(row)),
            None => None,
        }
    }

    fn eval(&'r self, row: &'r Row) -> (v: Option<Rust<'r, T::SqlType>>) {
        match self {
            Some(x) => Some(x.eval(row)),
            None => None,
        }
    }
}

/// Each comparison node compares its left operand's value with its right
/// operand's by its own operator: `=` by equality, `<` by less-than, and
/// so on (what each means on each SQL type is stated in
/// [`crate::comparisons`]).
pub proof fn lemma_comparison_nodes_use_their_operators<'r, Row, L: Eval<'r, Row>, R: Eval<'r, Row>>(
    eq: crate::expr::Eq<L, R>,
    ne: NotEq<L, R>,
    lt: Lt<L, R>,
    lte: LtEq<L, R>,
    gt: Gt<L, R>,
    gte: GtEq<L, R>,
    row: Row,
)
    where L::SqlType: Cmp3<'r, R::SqlType>, R::SqlType: Repr<'r>, <L::SqlType as CompareWith<R::SqlType>>::Out: Repr<'r>,
    ensures
        eq.spec_eval(&row) == compared::<L::SqlType, R::SqlType>(op_eq(), eq.spec_left().spec_eval(&row), eq.spec_right().spec_eval(&row)),
        ne.spec_eval(&row) == compared::<L::SqlType, R::SqlType>(op_ne(), ne.spec_left().spec_eval(&row), ne.spec_right().spec_eval(&row)),
        lt.spec_eval(&row) == compared::<L::SqlType, R::SqlType>(op_lt(), lt.spec_left().spec_eval(&row), lt.spec_right().spec_eval(&row)),
        lte.spec_eval(&row) == compared::<L::SqlType, R::SqlType>(op_lte(), lte.spec_left().spec_eval(&row), lte.spec_right().spec_eval(&row)),
        gt.spec_eval(&row) == compared::<L::SqlType, R::SqlType>(op_gt(), gt.spec_left().spec_eval(&row), gt.spec_right().spec_eval(&row)),
        gte.spec_eval(&row) == compared::<L::SqlType, R::SqlType>(op_gte(), gte.spec_left().spec_eval(&row), gte.spec_right().spec_eval(&row)),
{
}

/// `AND` and `OR` combine their left operand's value with their right
/// operand's, in that order, by SQL's three-valued truth tables (stated
/// in [`crate::logic_laws`]).
pub proof fn lemma_logic_nodes_use_their_operators<'r, Row, L: Eval<'r, Row>, R: Eval<'r, Row>>(
    and: And<L, R>,
    or: Or<L, R>,
    row: Row,
)
    where L::SqlType: Logic3<'r, R::SqlType>, R::SqlType: Repr<'r>, <L::SqlType as LogicWith<R::SqlType>>::Out: Repr<'r>,
    ensures
        and.spec_eval(&row) == <L::SqlType as Logic3<'r, R::SqlType>>::spec_and(
            and.spec_left().spec_eval(&row),
            and.spec_right().spec_eval(&row),
        ),
        or.spec_eval(&row) == <L::SqlType as Logic3<'r, R::SqlType>>::spec_or(
            or.spec_left().spec_eval(&row),
            or.spec_right().spec_eval(&row),
        ),
{
}

/// `NOT` negates its operand's value; `IS NULL` and `IS NOT NULL` test it
/// for NULL, the second giving the opposite answer of the first.
pub proof fn lemma_unary_nodes_use_their_operators<'r, Row, E: Eval<'r, Row>, N: Eval<'r, Row>>(
    not: Not<N>,
    is_null: IsNull<E>,
    is_not_null: IsNotNull<E>,
    row: Row,
)
    where N::SqlType: Negate3<'r>, <N::SqlType as Negate>::Out: Repr<'r>, E::SqlType: NullCheck<'r>,
    ensures
        not.spec_eval(&row) == <N::SqlType as Negate3<'r>>::spec_not(not.spec_inner().spec_eval(&row)),
        is_null.spec_eval(&row) == <E::SqlType as NullCheck<'r>>::spec_is_null(is_null.spec_inner().spec_eval(&row)),
        is_not_null.spec_eval(&row) == !<E::SqlType as NullCheck<'r>>::spec_is_null(
            is_not_null.spec_inner().spec_eval(&row),
        ),
{
}

/// `LIKE` matches its left operand's text against its right operand's
/// pattern, not the other way round.
pub proof fn lemma_like_node_text_on_the_left<'r, Row, L: Eval<'r, Row>, R: Eval<'r, Row>>(like: Like<L, R>, row: Row)
    where
        L::SqlType: Like3<'r, R::SqlType> + Family<Base = Text>,
        R::SqlType: Repr<'r> + Family<Base = Text>,
        <L::SqlType as CompareWith<R::SqlType>>::Out: Repr<'r>,
    ensures
        like.spec_eval(&row) == <L::SqlType as Like3<'r, R::SqlType>>::spec_like(
            like.spec_left().spec_eval(&row),
            like.spec_right().spec_eval(&row),
        ),
{
}

/// Literals evaluate to themselves on every row (an `i32` widened), `None`
/// to NULL, `Some` to its contents, and the filter of an unfiltered query
/// to TRUE.
pub proof fn lemma_literals_are_constant<'r, Row>(i: i64, j: i32, b: bool, t: &'r str, row: Row)
    ensures
        Eval::<'r, Row>::spec_eval(&i, &row) == i,
        Eval::<'r, Row>::spec_eval(&j, &row) == j,
        Eval::<'r, Row>::spec_eval(&b, &row) == b,
        Eval::<'r, Row>::spec_eval(&t, &row) == t,
        Eval::<'r, Row>::spec_eval(&Some(i), &row) == Some(i),
        Eval::<'r, Row>::spec_eval(&None::<i64>, &row) == None::<i64>,
        Eval::<'r, Row>::spec_eval(&AlwaysTrue, &row),
{
}

} // verus!

