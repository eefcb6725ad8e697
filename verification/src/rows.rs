//! The query value's building blocks: predicate accumulation, the
//! `ORDER BY` type-states, the binding of a row struct to its table, and the
//! bridge from a Rust field to the SQL type it is read as.
use vstd::prelude::*;

use crate::expr::{param_views, And, BelongsTo, Expr, ExprLaws, Gt, GtEq, IsNotNull, IsNull, Like, Lt, LtEq, Not, NotEq, Or, ParamView};
use crate::repr::{Repr, Rust};
use crate::sql_types::{Boolean, Integer, Nullable, Text};
use crate::value::SqlValue;
use crate::eval::Eval;
use crate::sql_types::WhereClause;
use crate::tri::{keeps, TruthValue};
use crate::window::{derefs, kept, lemma_kept_push, lemma_streamed_is_window, lemma_streamed_len, scan_bound, scan_bound_of, limit_of, offset_of, streamed, window};
use crate::ordered::{has_tag, is_stable_sort, stable_sort};
use core::marker::PhantomData;
use core::cmp::Ordering;
use crate::sortable::Sortable;
use crate::stream::{RowFilter, RowStream, Streamed};
use crate::boxed::{truth_of, DynPred};
use crate::statement::{order_item_sql, order_sqls, render_select, select_sql, QueryOutput, Table};
use vstd::string::StringExecFns;

verus! {

/// Binds a Rust row struct to the table it is stored in.
pub trait Entity: Sized {
    /// The marker type of this struct's table.
    type Table;
}

/// The predicate of a query that has not been filtered yet: the identity of
/// the conjunction.
#[derive(Debug, Clone, Copy)]
pub struct AlwaysTrue;

impl Expr for AlwaysTrue {
    type SqlType = Boolean;

    /// Never rendered in practice: a query without a filter has no `WHERE`.
    open spec fn spec_sql(&self) -> Seq<char> {
        "1 = 1"@
    }

    open spec fn spec_params(&self) -> Seq<ParamView> {
        Seq::empty()
    }

    fn write_to(&self, sql: &mut String, params: &mut Vec<SqlValue>) {
        sql.append("1 = 1");
        assert(param_views(params@) =~= param_views(old(params)@) + Seq::<ParamView>::empty());
    }
}

impl ExprLaws for AlwaysTrue {
    proof fn lemma_placeholders(&self) {
        reveal_strlit("1 = 1");
        crate::expr::lemma_no_placeholders("1 = 1"@);
    }
}

/// The unfiltered predicate mentions no column.
impl<T> BelongsTo<T> for AlwaysTrue {}

/// How a new `filter` combines with the predicate a query already has:
/// `AlwaysTrue` is replaced, anything else is `AND`-ed.
pub trait Conj<P2> {
    /// The predicate type after conjunction.
    type Out;

    /// `out` is this predicate combined with `rhs`.
    spec fn spec_conj(&self, rhs: P2, out: Self::Out) -> bool;

    /// Combines.
    fn conj(self, rhs: P2) -> (out: Self::Out)
        ensures
            self.spec_conj(rhs, out),
    ;
}

impl<P2> Conj<P2> for AlwaysTrue {
    type Out = P2;

    open spec fn spec_conj(&self, rhs: P2, out: P2) -> bool {
        out == rhs
    }

    fn conj(self, rhs: P2) -> (out: P2) {
        rhs
    }
}

impl<L, R, P2> Conj<P2> for crate::expr::Eq<L, R> {
    type Out = And<Self, P2>;

    open spec fn spec_conj(&self, rhs: P2, out: And<Self, P2>) -> bool {
        out.spec_left() == *self && out.spec_right() == rhs
    }

    fn conj(self, rhs: P2) -> (out: And<Self, P2>) {
        And::new(self, rhs)
    }
}

impl<L, R, P2> Conj<P2> for NotEq<L, R> {
    type Out = And<Self, P2>;

    open spec fn spec_conj(&self, rhs: P2, out: And<Self, P2>) -> bool {
        out.spec_left() == *self && out.spec_right() == rhs
    }

    fn conj(self, rhs: P2) -> (out: And<Self, P2>) {
        And::new(self, rhs)
    }
}

impl<L, R, P2> Conj<P2> for Lt<L, R> {
    type Out = And<Self, P2>;

    open spec fn spec_conj(&self, rhs: P2, out: And<Self, P2>) -> bool {
        out.spec_left() == *self && out.spec_right() == rhs
    }

    fn conj(self, rhs: P2) -> (out: And<Self, P2>) {
        And::new(self, rhs)
    }
}

impl<L, R, P2> Conj<P2> for LtEq<L, R> {
    type Out = And<Self, P2>;

    open spec fn spec_conj(&self, rhs: P2, out: And<Self, P2>) -> bool {
        out.spec_left() == *self && out.spec_right() == rhs
    }

    fn conj(self, rhs: P2) -> (out: And<Self, P2>) {
        And::new(self, rhs)
    }
}

impl<L, R, P2> Conj<P2> for Gt<L, R> {
    type Out = And<Self, P2>;

    open spec fn spec_conj(&self, rhs: P2, out: And<Self, P2>) -> bool {
        out.spec_left() == *self && out.spec_right() == rhs
    }

    fn conj(self, rhs: P2) -> (out: And<Self, P2>) {
        And::new(self, rhs)
    }
}

impl<L, R, P2> Conj<P2> for GtEq<L, R> {
    type Out = And<Self, P2>;

    open spec fn spec_conj(&self, rhs: P2, out: And<Self, P2>) -> bool {
        out.spec_left() == *self && out.spec_right() == rhs
    }

    fn conj(self, rhs: P2) -> (out: And<Self, P2>) {
        And::new(self, rhs)
    }
}

impl<L, R, P2> Conj<P2> for And<L, R> {
    type Out = And<Self, P2>;

    open spec fn spec_conj(&self, rhs: P2, out: And<Self, P2>) -> bool {
        out.spec_left() == *self && out.spec_right() == rhs
    }

    fn conj(self, rhs: P2) -> (out: And<Self, P2>) {
        And::new(self, rhs)
    }
}

impl<L, R, P2> Conj<P2> for Or<L, R> {
    type Out = And<Self, P2>;

    open spec fn spec_conj(&self, rhs: P2, out: And<Self, P2>) -> bool {
        out.spec_left() == *self && out.spec_right() == rhs
    }

    fn conj(self, rhs: P2) -> (out: And<Self, P2>) {
        And::new(self, rhs)
    }
}

impl<L, R, P2> Conj<P2> for Like<L, R> {
    type Out = And<Self, P2>;

    open spec fn spec_conj(&self, rhs: P2, out: And<Self, P2>) -> bool {
        out.spec_left() == *self && out.spec_right() == rhs
    }

    fn conj(self, rhs: P2) -> (out: And<Self, P2>) {
        And::new(self, rhs)
    }
}

impl<E, P2> Conj<P2> for Not<E> {
    type Out = And<Self, P2>;

    open spec fn spec_conj(&self, rhs: P2, out: And<Self, P2>) -> bool {
        out.spec_left() == *self && out.spec_right() == rhs
    }

    fn conj(self, rhs: P2) -> (out: And<Self, P2>) {
        And::new(self, rhs)
    }
}

impl<E, P2> Conj<P2> for IsNull<E> {
    type Out = And<Self, P2>;

    open spec fn spec_conj(&self, rhs: P2, out: And<Self, P2>) -> bool {
        out.spec_left() == *self && out.spec_right() == rhs
    }

    fn conj(self, rhs: P2) -> (out: And<Self, P2>) {
        And::new(self, rhs)
    }
}

impl<E, P2> Conj<P2> for IsNotNull<E> {
    type Out = And<Self, P2>;

    open spec fn spec_conj(&self, rhs: P2, out: And<Self, P2>) -> bool {
        out.spec_left() == *self && out.spec_right() == rhs
    }

    fn conj(self, rhs: P2) -> (out: And<Self, P2>) {
        And::new(self, rhs)
    }
}

/// Type-state: no `ORDER BY` yet, so the in-memory interpretation can stream.
#[derive(Debug, Clone, Copy)]
pub struct Unordered;

/// Type-state: `ORDER BY` present, so the in-memory interpretation must
/// collect and sort.
#[derive(Debug, Clone, Copy)]
pub struct Ordered;

/// Implemented by nothing: an operator that cannot be rendered as SQL asks
/// for it, so the compiler's error names the way out (interpret in memory
/// first).
pub trait CallToMemoryFirst {}

// ═══════════════════════════════════════════════════════════════════════
// ReadField
// ═══════════════════════════════════════════════════════════════════════

/// How a Rust struct field of type `F` is read as SQL type `Self`.
pub trait ReadField<'r, F: ?Sized>: Repr<'r> {
    /// `v` is what `field` reads as.
    spec fn reads_as(field: &F, v: Rust<'r, Self>) -> bool;

    /// Reads the field.
    fn read(field: &'r F) -> (v: Rust<'r, Self>)
        ensures
            Self::reads_as(field, v),
    ;
}

impl<'r> ReadField<'r, i64> for Integer {
    open spec fn reads_as(field: &i64, v: i64) -> bool {
        v == *field
    }

    fn read(field: &'r i64) -> (v: i64) {
        *field
    }
}

impl<'r> ReadField<'r, i32> for Integer {
    /// Lossless widening.
    open spec fn reads_as(field: &i32, v: i64) -> bool {
        v == *field
    }

    fn read(field: &'r i32) -> (v: i64) {
        *field as i64
    }
}

impl<'r> ReadField<'r, bool> for Boolean {
    open spec fn reads_as(field: &bool, v: bool) -> bool {
        v == *field
    }

    fn read(field: &'r bool) -> (v: bool) {
        *field
    }
}

impl<'r> ReadField<'r, String> for Text {
    open spec fn reads_as(field: &String, v: &'r str) -> bool {
        v@ == field@
    }

    fn read(field: &'r String) -> (v: &'r str) {
        field.as_str()
    }
}

impl<'r> ReadField<'r, str> for Text {
    open spec fn reads_as(field: &str, v: &'r str) -> bool {
        v@ == field@
    }

    fn read(field: &'r str) -> (v: &'r str) {
        field
    }
}

/// An `Option<F>` field read as `Nullable<S>`: `S` read through the `Some`.
impl<'r, S: ReadField<'r, F>, F> ReadField<'r, Option<F>> for Nullable<S> {
    open spec fn reads_as(field: &Option<F>, v: Option<Rust<'r, S>>) -> bool {
        match (*field, v) {
            (Some(f), Some(x)) => S::reads_as(&f, x),
            (None, None) => true,
            _ => false,
        }
    }

    fn read(field: &'r Option<F>) -> (v: Option<Rust<'r, S>>) {
        match field {
            Some(f) => Some(S::read(f)),
            None => None,
        }
    }
}

/// Reads a field as SQL type `S`, naming `S` by turbofish and inferring the
/// field type.
pub fn read_field<'r, S: ReadField<'r, F>, F: ?Sized>(field: &'r F) -> (v: Rust<'r, S>)
    ensures
        S::reads_as(field, v),
{
    S::read(field)
}

} // verus!

verus! {

// ═══════════════════════════════════════════════════════════════════════
// Rows — the query value
// ═══════════════════════════════════════════════════════════════════════

/// Whether `pred`, evaluated on `row`, keeps it: TRUE does, FALSE and NULL
/// do not — SQL's `WHERE` rule.
pub open spec fn row_kept<'x, Row, P: Eval<'x, Row>>(pred: P, row: Row) -> bool
    where P::SqlType: TruthValue<'x>,
{
    keeps(<P::SqlType as TruthValue<'x>>::spec_tri(pred.spec_eval(&row)))
}

/// The rows `pred` keeps.
pub open spec fn keeper<'x, Row, P: Eval<'x, Row>>(pred: P) -> spec_fn(Row) -> bool
    where P::SqlType: TruthValue<'x>,
{
    |row: Row| row_kept::<'x, Row, P>(pred, row)
}

// ═══════════════════════════════════════════════════════════════════════
// ORDER BY parts
// ═══════════════════════════════════════════════════════════════════════

/// One `ORDER BY` column's ranking of two rows: -1 when `a` comes first,
/// 0 when they tie, 1 when `b` comes first.
pub trait RowOrder<Row> {
    /// How `a` ranks against `b`.
    spec fn spec_rank(&self, a: Row, b: Row) -> int;

    /// How `a` ranks against `b`.
    fn rank(&self, a: &Row, b: &Row) -> (r: i8)
        ensures
            r == self.spec_rank(*a, *b),
    ;
}

/// How a column of SQL type `S` ranks two rows, ascending or descending.
pub open spec fn column_rank<'x, Row, C: Eval<'x, Row>>(column: C, desc: bool, a: Row, b: Row) -> int
    where C::SqlType: Sortable,
{
    let o = <C::SqlType as Sortable>::spec_order(column.spec_eval(&a), column.spec_eval(&b));
    if desc {
        -o
    } else {
        o
    }
}

/// Ranks two values of a sortable SQL type: -1, 0 or 1.
fn order_values<'x, S: Sortable>(a: Rust<'x, S>, b: Rust<'x, S>) -> (r: i8)
    ensures
        r == S::spec_order(a, b),
        -1 <= r <= 1,
{
    proof {
        S::lemma_order_laws(a, b, b);
    }
    match S::compare(a, b) {
        Ordering::Less => -1,
        Ordering::Equal => 0,
        Ordering::Greater => 1,
    }
}

/// One `ORDER BY` column of a row type, with its direction.
pub struct OrderColumn<C> {
    column: C,
    desc: bool,
}

impl<Row, C: for<'x> Eval<'x, Row>> RowOrder<Row> for OrderColumn<C> where C::SqlType: Sortable {
    closed spec fn spec_rank(&self, a: Row, b: Row) -> int {
        column_rank::<'static, Row, C>(self.column, self.desc, a, b)
    }

    fn rank(&self, a: &Row, b: &Row) -> (r: i8) {
        let va = self.column.eval(a);
        let vb = self.column.eval(b);
        let o: i8 = order_values::<C::SqlType>(va, vb);
        proof {
            <C::SqlType as Sortable>::lemma_order_congruent(va, vb, self.column.spec_eval(a), self.column.spec_eval(b));
        }
        if self.desc {
            -o
        } else {
            o
        }
    }
}

/// One accumulated `ORDER BY` part: how it ranks two rows.
#[verifier::reject_recursive_types(Row)]
pub struct OrderPart<Row> {
    by: Box<dyn RowOrder<Row>>,
    sql: String,
}

impl<Row> OrderPart<Row> {
    /// How this part ranks `a` against `b`.
    pub closed spec fn spec_rank(&self, a: Row, b: Row) -> int {
        self.by.spec_rank(a, b)
    }

    /// This part's `ORDER BY` text: the column, then ` DESC` when descending.
    pub closed spec fn spec_sql(&self) -> Seq<char> {
        self.sql@
    }

    /// This part's `ORDER BY` text.
    pub fn sql_text(&self) -> (r: &str)
        ensures
            r@ == self.spec_sql(),
    {
        self.sql.as_str()
    }

    /// The ranking takes the values -1, 0 and 1, is antisymmetric and is
    /// transitive.
    pub open spec fn lawful(&self) -> bool {
        &&& forall|a: Row, b: Row|
            -1 <= #[trigger] self.spec_rank(a, b) <= 1 && self.spec_rank(a, b) == -self.spec_rank(b, a)
        &&& forall|a: Row, b: Row, c: Row|
            #[trigger] self.spec_rank(a, b) <= 0 && #[trigger] self.spec_rank(b, c) <= 0 ==> self.spec_rank(a, c) <= 0
    }

    /// How this part ranks `a` against `b`.
    fn rank(&self, a: &Row, b: &Row) -> (r: i8)
        ensures
            r == self.spec_rank(*a, *b),
    {
        self.by.rank(a, b)
    }
}

/// Builds one `ORDER BY` part from a column and a direction.
pub fn order_part<Row, C: for<'x> Eval<'x, Row> + 'static>(column: C, desc: bool) -> (r: OrderPart<Row>)
    where C::SqlType: Sortable,
    ensures
        forall|a: Row, b: Row| #[trigger] r.spec_rank(a, b) == column_rank::<'static, Row, C>(column, desc, a, b),
        r.lawful(),
        r.spec_sql() == order_item_sql(column.spec_sql(), desc),
{
    let mut sql = String::new();
    let mut unused: Vec<SqlValue> = Vec::new();
    column.write_to(&mut sql, &mut unused);
    if desc {
        sql.append(" DESC");
    }
    let r = OrderPart { by: Box::new(OrderColumn { column, desc }), sql };
    proof {
        assert forall|a: Row, b: Row|
            -1 <= #[trigger] r.spec_rank(a, b) <= 1 && r.spec_rank(a, b) == -r.spec_rank(b, a) by {
            <C::SqlType as Sortable>::lemma_order_laws(column.spec_eval(&a), column.spec_eval(&b), column.spec_eval(&b));
        }
        assert forall|a: Row, b: Row, c: Row|
            #[trigger] r.spec_rank(a, b) <= 0 && #[trigger] r.spec_rank(b, c) <= 0 implies r.spec_rank(a, c) <= 0 by {
            let (va, vb, vc) = (column.spec_eval(&a), column.spec_eval(&b), column.spec_eval(&c));
            <C::SqlType as Sortable>::lemma_order_laws(va, vb, vc);
            <C::SqlType as Sortable>::lemma_order_laws(vc, vb, va);
        }
    }
    r
}

/// Ascending, a column ranks `a` first exactly when `a`'s value sorts
/// before `b`'s; descending, exactly when `b`'s value sorts before `a`'s.
/// Either way the rows tie exactly when their values tie, and descending
/// ranks two rows as ascending ranks them the other way round.
pub proof fn lemma_column_rank_direction<'x, Row, C: Eval<'x, Row>>(column: C, a: Row, b: Row)
    where C::SqlType: Sortable,
    ensures
        (column_rank::<'x, Row, C>(column, false, a, b) < 0) == (<C::SqlType as Sortable>::spec_order(
            column.spec_eval(&a),
            column.spec_eval(&b),
        ) < 0),
        (column_rank::<'x, Row, C>(column, true, a, b) < 0) == (<C::SqlType as Sortable>::spec_order(
            column.spec_eval(&b),
            column.spec_eval(&a),
        ) < 0),
        (column_rank::<'x, Row, C>(column, true, a, b) == 0) == (<C::SqlType as Sortable>::spec_order(
            column.spec_eval(&a),
            column.spec_eval(&b),
        ) == 0),
        column_rank::<'x, Row, C>(column, true, a, b) == column_rank::<'x, Row, C>(column, false, b, a),
{
    <C::SqlType as Sortable>::lemma_order_laws(column.spec_eval(&a), column.spec_eval(&b), column.spec_eval(&b));
}

/// How the `ORDER BY` parts rank `a` against `b`: the first part that does
/// not tie decides; rows that tie on every part tie.
pub open spec fn chain_rank<Row>(parts: Seq<OrderPart<Row>>, a: Row, b: Row) -> int
    decreases parts.len(),
{
    if parts.len() == 0 {
        0
    } else if parts[0].spec_rank(a, b) != 0 {
        parts[0].spec_rank(a, b)
    } else {
        chain_rank(parts.drop_first(), a, b)
    }
}

/// `a` comes no later than `b` under the `ORDER BY` parts.
pub open spec fn ranks_first<Row>(parts: Seq<OrderPart<Row>>) -> spec_fn(Row, Row) -> bool {
    |a: Row, b: Row| chain_rank(parts, a, b) <= 0
}

/// Every part of `parts` is lawful.
pub open spec fn all_lawful<Row>(parts: Seq<OrderPart<Row>>) -> bool {
    forall|i: int| 0 <= i < parts.len() ==> (#[trigger] parts[i]).lawful()
}

/// Ranking by several parts in turn keeps the laws of each part: the
/// result is antisymmetric and transitive.
pub proof fn lemma_chain_laws<Row>(parts: Seq<OrderPart<Row>>, a: Row, b: Row, c: Row)
    requires
        all_lawful(parts),
    ensures
        -1 <= chain_rank(parts, a, b) <= 1,
        chain_rank(parts, a, b) == -chain_rank(parts, b, a),
        chain_rank(parts, a, b) <= 0 && chain_rank(parts, b, c) <= 0 ==> chain_rank(parts, a, c) <= 0,
    decreases parts.len(),
{
    if parts.len() > 0 {
        let p = parts[0];
        assert(p.lawful());
        let (ab, bc, ac) = (p.spec_rank(a, b), p.spec_rank(b, c), p.spec_rank(a, c));
        let (ba, cb, ca) = (p.spec_rank(b, a), p.spec_rank(c, b), p.spec_rank(c, a));
        assert(ab == -ba && bc == -cb && ac == -ca);
        assert(-1 <= ab <= 1 && -1 <= bc <= 1 && -1 <= ac <= 1);
        assert(ab <= 0 && bc <= 0 ==> ac <= 0);
        assert(cb <= 0 && ba <= 0 ==> ca <= 0);
        assert(bc <= 0 && ca <= 0 ==> ba <= 0);
        assert(ca <= 0 && ab <= 0 ==> cb <= 0);
        assert forall|i: int| 0 <= i < parts.drop_first().len() implies (#[trigger] parts.drop_first()[i]).lawful() by {
            assert(parts.drop_first()[i] == parts[i + 1]);
        }
        lemma_chain_laws(parts.drop_first(), a, b, c);
    }
}

/// How the `ORDER BY` parts rank `a` against `b`.
fn chain_rank_of<Row>(parts: &Vec<OrderPart<Row>>, a: &Row, b: &Row) -> (r: i8)
    requires
        all_lawful(parts@),
    ensures
        r == chain_rank(parts@, *a, *b),
{
    let mut i: usize = 0;
    assert(parts@.skip(0) == parts@);
    while i < parts.len()
        invariant
            i <= parts@.len(),
            all_lawful(parts@),
            chain_rank(parts@, *a, *b) == chain_rank(parts@.skip(i as int), *a, *b),
        decreases parts@.len() - i,
    {
        assert(parts@.skip(i as int)[0] == parts@[i as int]);
        assert(parts@.skip(i as int).drop_first() == parts@.skip(i + 1));
        assert(parts@[i as int].lawful());
        let o = parts[i].rank(a, b);
        if o != 0 {
            return o;
        }
        i = i + 1;
    }
    0
}

/// The rows of `kept` in `ORDER BY` order, ties in their input order,
/// then `OFFSET` and `LIMIT`.
pub(crate) fn sort_window<'a, Row>(kept: Vec<&'a Row>, order: &Vec<OrderPart<Row>>, offset: Option<u64>, limit: Option<u64>) -> (r: Vec<&'a Row>)
    requires
        all_lawful(order@),
    ensures
        exists|tagged: Seq<(usize, Row)>|
            {
                &&& is_stable_sort(ranks_first(order@), derefs(kept@), tagged)
                &&& derefs(r@) == window(tagged.map_values(|e: (usize, Row)| e.1), offset_of(offset), limit_of(limit))
            },
{
    let ghost parts = order@;
    let ghost rel = |x: &'a Row, y: &'a Row| chain_rank(parts, *x, *y) <= 0;
    let le = |x: &&'a Row, y: &&'a Row| -> (b: bool)
        requires
            all_lawful(order@),
        ensures
            b == (chain_rank(order@, **x, **y) <= 0),
        {
            chain_rank_of(order, *x, *y) <= 0
        };
    proof {
        assert forall|i: int, j: int|
            0 <= i < kept@.len() && 0 <= j < kept@.len() implies #[trigger] rel(kept@[i], kept@[j]) || #[trigger] rel(kept@[j], kept@[i]) by {
            lemma_chain_laws(parts, *kept@[i], *kept@[j], *kept@[j]);
        }
        assert forall|i: int, j: int, k: int|
            0 <= i < kept@.len() && 0 <= j < kept@.len() && 0 <= k < kept@.len() && #[trigger] rel(kept@[i], kept@[j])
                && #[trigger] rel(kept@[j], kept@[k]) implies rel(kept@[i], kept@[k]) by {
            lemma_chain_laws(parts, *kept@[i], *kept@[j], *kept@[k]);
        }
    }
    let ghost src = kept@;
    let sorted = stable_sort(kept, &le, Ghost(rel));
    let n = sorted.len();
    let start: usize = match offset {
        Some(o) => if o < n as u64 { o as usize } else { n },
        None => 0,
    };
    let end: usize = match limit {
        Some(l) => if l < (n - start) as u64 { start + l as usize } else { n },
        None => n,
    };
    let mut out: Vec<&'a Row> = Vec::new();
    let mut k: usize = start;
    while k < end
        invariant
            start <= k <= end <= n == sorted@.len(),
            out@ == sorted@.subrange(start as int, k as int).map_values(|e: (usize, &'a Row)| e.1),
        decreases end - k,
    {
        out.push(sorted[k].1);
        proof {
            assert(sorted@.subrange(start as int, k + 1).map_values(|e: (usize, &'a Row)| e.1)
                =~= sorted@.subrange(start as int, k as int).map_values(|e: (usize, &'a Row)| e.1).push(sorted@[k as int].1));
        }
        k = k + 1;
    }
    proof {
        let tagged = sorted@.map_values(|e: (usize, &'a Row)| (e.0, *e.1));
        let d = derefs(src);
        let rf = ranks_first(parts);
        assert(tagged.len() == d.len());
        assert forall|a: int| 0 <= a < tagged.len() implies (#[trigger] tagged[a]).0 < d.len() && tagged[a].1 == d[tagged[a].0 as int] by {
            assert(sorted@[a].1 == src[sorted@[a].0 as int]);
        }
        assert forall|a: int, b: int| 0 <= a < b < tagged.len() implies (#[trigger] tagged[a]).0 != (#[trigger] tagged[b]).0 by {
            assert(sorted@[a].0 != sorted@[b].0);
        }
        assert forall|p: int| 0 <= p < d.len() implies #[trigger] has_tag(tagged, p) by {
            assert(has_tag(sorted@, p));
            let a = choose|a: int| 0 <= a < sorted@.len() && (#[trigger] sorted@[a]).0 == p;
            assert(tagged[a].0 == p);
        }
        assert forall|a: int, b: int| 0 <= a < b < tagged.len() implies rf(#[trigger] tagged[a].1, #[trigger] tagged[b].1) by {
            assert(rel(sorted@[a].1, sorted@[b].1));
        }
        assert forall|a: int, b: int|
            0 <= a < b < tagged.len() && rf(#[trigger] tagged[b].1, #[trigger] tagged[a].1) implies tagged[a].0 < tagged[b].0 by {
            assert(rel(sorted@[b].1, sorted@[a].1));
        }
        assert(is_stable_sort(rf, d, tagged));
        assert(derefs(out@) =~= window(tagged.map_values(|e: (usize, Row)| e.1), offset_of(offset), limit_of(limit)));
    }
    out
}

/// A query value with two interpreters: SQL text, and evaluation over rows
/// in memory. `P` is the accumulated predicate, `O` is [`Unordered`] or
/// [`Ordered`].
#[verifier::reject_recursive_types(Row)]
pub struct Rows<Row, P, O> {
    pred: P,
    filtered: bool,
    order: Vec<OrderPart<Row>>,
    limit: Option<u64>,
    offset: Option<u64>,
    _ord: PhantomData<O>,
}

impl<Row, P, O> Rows<Row, P, O> {
    /// Every `ORDER BY` part is lawful.
    #[verifier::type_invariant]
    spec fn parts_lawful(&self) -> bool {
        all_lawful(self.order@)
    }

    /// The accumulated predicate.
    pub closed spec fn spec_pred(&self) -> P {
        self.pred
    }

    /// Whether any `filter` was applied.
    pub closed spec fn spec_filtered(&self) -> bool {
        self.filtered
    }

    /// The `ORDER BY` parts, most significant first.
    pub closed spec fn spec_order(&self) -> Seq<OrderPart<Row>> {
        self.order@
    }

    /// The `LIMIT`, if any.
    pub closed spec fn spec_limit(&self) -> Option<u64> {
        self.limit
    }

    /// The `OFFSET`, if any.
    pub closed spec fn spec_offset(&self) -> Option<u64> {
        self.offset
    }

    /// Adds an `AND`-joined predicate.
    pub fn filter<P2: Expr>(self, predicate: P2) -> (r: Rows<Row, P::Out, O>)
        where P: Conj<P2>, P2::SqlType: WhereClause, Row: Entity, P2: BelongsTo<Row::Table>,
        ensures
            self.spec_pred().spec_conj(predicate, r.spec_pred()),
            r.spec_filtered(),
            r.spec_order() == self.spec_order(),
            r.spec_limit() == self.spec_limit(),
            r.spec_offset() == self.spec_offset(),
    {
        proof {
            use_type_invariant(&self);
        }
        Rows {
            pred: self.pred.conj(predicate),
            filtered: true,
            order: self.order,
            limit: self.limit,
            offset: self.offset,
            _ord: PhantomData,
        }
    }

    /// `LIMIT n`.
    pub fn limit(self, n: u64) -> (r: Self)
        ensures
            r.spec_pred() == self.spec_pred(),
            r.spec_filtered() == self.spec_filtered(),
            r.spec_order() == self.spec_order(),
            r.spec_limit() == Some(n),
            r.spec_offset() == self.spec_offset(),
    {
        proof {
            use_type_invariant(&self);
        }
        Rows { limit: Some(n), ..self }
    }

    /// `OFFSET n`.
    pub fn offset(self, n: u64) -> (r: Self)
        ensures
            r.spec_pred() == self.spec_pred(),
            r.spec_filtered() == self.spec_filtered(),
            r.spec_order() == self.spec_order(),
            r.spec_limit() == self.spec_limit(),
            r.spec_offset() == Some(n),
    {
        proof {
            use_type_invariant(&self);
        }
        Rows { offset: Some(n), ..self }
    }

    /// The query's parts: predicate, whether it was filtered, `ORDER BY`
    /// parts, `LIMIT` and `OFFSET`.
    pub(crate) fn into_parts(self) -> (r: (P, bool, Vec<OrderPart<Row>>, Option<u64>, Option<u64>))
        ensures
            r.0 == self.spec_pred(),
            r.1 == self.spec_filtered(),
            r.2@ == self.spec_order(),
            all_lawful(r.2@),
            r.3 == self.spec_limit(),
            r.4 == self.spec_offset(),
    {
        proof {
            use_type_invariant(&self);
        }
        (self.pred, self.filtered, self.order, self.limit, self.offset)
    }

    /// Appends one `ORDER BY` part.
    fn push_order<C: for<'x> Eval<'x, Row> + 'static>(self, column: C, desc: bool) -> (r: Rows<Row, P, Ordered>)
        where C::SqlType: Sortable,
        ensures
            r.spec_pred() == self.spec_pred(),
            r.spec_filtered() == self.spec_filtered(),
            r.spec_order().len() == self.spec_order().len() + 1,
            r.spec_order().take(self.spec_order().len() as int) == self.spec_order(),
            forall|a: Row, b: Row| #[trigger] r.spec_order().last().spec_rank(a, b) == column_rank::<'static, Row, C>(column, desc, a, b),
            r.spec_order().last().spec_sql() == order_item_sql(column.spec_sql(), desc),
            r.spec_limit() == self.spec_limit(),
            r.spec_offset() == self.spec_offset(),
    {
        proof {
            use_type_invariant(&self);
        }
        let mut order = self.order;
        let part = order_part(column, desc);
        let ghost before = order@;
        order.push(part);
        proof {
            assert(order@.take(before.len() as int) == before);
            assert forall|i: int| 0 <= i < order@.len() implies (#[trigger] order@[i]).lawful() by {
                if i < before.len() {
                    assert(order@[i] == before[i]);
                }
            }
        }
        Rows { pred: self.pred, filtered: self.filtered, order, limit: self.limit, offset: self.offset, _ord: PhantomData }
    }

    /// `ORDER BY column ASC`: stable, and after any earlier parts.
    pub fn order_by<C: for<'x> Eval<'x, Row> + 'static>(self, column: C) -> (r: Rows<Row, P, Ordered>)
        where C::SqlType: Sortable,
        ensures
            r.spec_pred() == self.spec_pred(),
            r.spec_filtered() == self.spec_filtered(),
            r.spec_order().len() == self.spec_order().len() + 1,
            r.spec_order().take(self.spec_order().len() as int) == self.spec_order(),
            forall|a: Row, b: Row| #[trigger] r.spec_order().last().spec_rank(a, b) == column_rank::<'static, Row, C>(column, false, a, b),
            r.spec_order().last().spec_sql() == order_item_sql(column.spec_sql(), false),
            r.spec_limit() == self.spec_limit(),
            r.spec_offset() == self.spec_offset(),
    {
        self.push_order(column, false)
    }

    /// `ORDER BY column DESC`: stable, and after any earlier parts.
    pub fn order_by_desc<C: for<'x> Eval<'x, Row> + 'static>(self, column: C) -> (r: Rows<Row, P, Ordered>)
        where C::SqlType: Sortable,
        ensures
            r.spec_pred() == self.spec_pred(),
            r.spec_filtered() == self.spec_filtered(),
            r.spec_order().len() == self.spec_order().len() + 1,
            r.spec_order().take(self.spec_order().len() as int) == self.spec_order(),
            forall|a: Row, b: Row| #[trigger] r.spec_order().last().spec_rank(a, b) == column_rank::<'static, Row, C>(column, true, a, b),
            r.spec_order().last().spec_sql() == order_item_sql(column.spec_sql(), true),
            r.spec_limit() == self.spec_limit(),
            r.spec_offset() == self.spec_offset(),
    {
        self.push_order(column, true)
    }
}

impl<Row, P: Expr, O> Rows<Row, P, O> {
    /// The `WHERE` clause: the accumulated predicate's SQL and parameters,
    /// or `None` when the query was never filtered (it has no `WHERE`).
    pub fn where_sql(&self) -> (r: Option<(String, Vec<SqlValue>)>)
        ensures
            match r {
                None => !self.spec_filtered(),
                Some((sql, params)) => {
                    &&& self.spec_filtered()
                    &&& sql@ == self.spec_pred().spec_sql()
                    &&& param_views(params@) == self.spec_pred().spec_params()
                },
            },
    {
        if !self.filtered {
            return None;
        }
        let mut sql = String::new();
        let mut params: Vec<SqlValue> = Vec::new();
        self.pred.write_to(&mut sql, &mut params);
        proof {
            assert(sql@ =~= Seq::<char>::empty() + self.pred.spec_sql());
            assert(param_views(params@) =~= param_views(Seq::<SqlValue>::empty()) + self.pred.spec_params());
        }
        Some((sql, params))
    }
}

/// The `SELECT` statement a typed query renders.
pub open spec fn typed_statement<Row: Entity, P: Expr, O>(q: Rows<Row, P, O>) -> Seq<char>
    where Row::Table: Table,
{
    select_sql(
        <Row::Table as Table>::spec_name(),
        <Row::Table as Table>::spec_columns(),
        if q.spec_filtered() { Some(q.spec_pred().spec_sql()) } else { None },
        order_sqls(q.spec_order()),
        q.spec_limit(),
        q.spec_offset(),
    )
}

/// The values a typed query binds, in placeholder order.
pub open spec fn typed_params<Row, P: Expr, O>(q: Rows<Row, P, O>) -> Seq<ParamView> {
    if q.spec_filtered() { q.spec_pred().spec_params() } else { Seq::empty() }
}

/// Bound values never reach a query's SQL: two queries built by the same
/// calls, one filtering by `column = a` and the other by `column = b` for
/// texts `a` and `b`, render the same statement whatever the texts hold;
/// each text is only bound, after the column's own values.
pub proof fn lemma_statement_ignores_text_values<Row: Entity, L: Expr, O>(
    q1: Rows<Row, crate::expr::Eq<L, &str>, O>,
    q2: Rows<Row, crate::expr::Eq<L, &str>, O>,
)
    where Row::Table: Table, L::SqlType: crate::sql_types::CompareWith<Text>,
    requires
        q1.spec_filtered(),
        q2.spec_filtered(),
        q1.spec_pred().spec_left() == q2.spec_pred().spec_left(),
        q1.spec_order() == q2.spec_order(),
        q1.spec_limit() == q2.spec_limit(),
        q1.spec_offset() == q2.spec_offset(),
    ensures
        typed_statement(q1) == typed_statement(q2),
        typed_params(q1) == q1.spec_pred().spec_left().spec_params() + seq![ParamView::Text(q1.spec_pred().spec_right()@)],
{
    crate::expr::lemma_text_values_are_bound(q1.spec_pred(), q2.spec_pred());
}

impl<Row: Entity, P: Expr, O> Rows<Row, P, O> where Row::Table: Table {
    /// The whole statement: `SELECT` from the row type's table, the
    /// `WHERE` clause when the query was filtered, then `ORDER BY`, `LIMIT`
    /// and `OFFSET`, with the values bound to its placeholders.
    pub fn to_sql(&self) -> (r: QueryOutput)
        ensures
            r.sql@ == select_sql(
                <Row::Table as Table>::spec_name(),
                <Row::Table as Table>::spec_columns(),
                if self.spec_filtered() { Some(self.spec_pred().spec_sql()) } else { None },
                order_sqls(self.spec_order()),
                self.spec_limit(),
                self.spec_offset(),
            ),
            param_views(r.params@) == if self.spec_filtered() { self.spec_pred().spec_params() } else { Seq::empty() },
            r.sql@ == typed_statement(*self),
            param_views(r.params@) == typed_params(*self),
    {
        let table = <Row::Table as Table>::name();
        let columns = <Row::Table as Table>::columns();
        match self.where_sql() {
            Some((text, params)) => {
                let sql = render_select(table, columns, Some(text.as_str()), self.order.as_slice(), self.limit, self.offset);
                QueryOutput { sql, params }
            },
            None => {
                let sql = render_select(table, columns, None, self.order.as_slice(), self.limit, self.offset);
                let params: Vec<SqlValue> = Vec::new();
                proof {
                    assert(param_views(params@) =~= Seq::<ParamView>::empty());
                }
                QueryOutput { sql, params }
            },
        }
    }
}

/// Begins a query over `Row`: no filter, no order, no limit, no offset.
pub fn query<Row: Entity>() -> (r: Rows<Row, AlwaysTrue, Unordered>)
    ensures
        !r.spec_filtered(),
        r.spec_order().len() == 0,
        r.spec_limit() is None,
        r.spec_offset() is None,
{
    Rows { pred: AlwaysTrue, filtered: false, order: Vec::new(), limit: None, offset: None, _ord: PhantomData }
}

impl<Row, P> Rows<Row, P, Unordered> {
    /// The in-memory interpretation, streaming: rows are examined one at a
    /// time as they are asked for, and none is copied.
    pub fn to_memory<'a>(self, src: &'a [Row]) -> (r: RowIter<'a, Row, P>)
        where P: Expr + for<'x> Eval<'x, Row>, P::SqlType: for<'x> TruthValue<'x>,
        ensures
            r.spec_pred() == self.spec_pred(),
            r.spec_source() == src@,
            r.spec_examined() == 0,
            r.spec_remaining() == window(
                kept(src@, keeper::<'a, Row, P>(self.spec_pred())),
                offset_of(self.spec_offset()),
                limit_of(self.spec_limit()),
            ),
    {
        let it = RowIter { rows: src, pos: 0, pred: self.pred, skip: self.offset.unwrap_or(0), left: self.limit };
        proof {
            assert(src@.skip(0) == src@);
            lemma_streamed_is_window(src@, keeper::<'a, Row, P>(self.pred), offset_of(self.offset), limit_of(self.limit));
        }
        it
    }
}

impl<Row, P, O> Rows<Row, P, O> {
    /// Not translatable to SQL: call [`Rows::to_memory`] first, and use the
    /// sequence operators on what it yields. No type meets the bound, so no
    /// call compiles.
    pub fn select_many<F>(self, f: F) -> (r: Self)
        where Self: CallToMemoryFirst,
        ensures
            r == self,
    {
        self
    }
}

/// A typed predicate, as the filter of a streaming scan: a row is kept when
/// the predicate is TRUE on it.
pub struct PredFilter<P> {
    pred: P,
}

impl<P> PredFilter<P> {
    /// The predicate.
    pub closed spec fn spec_pred(&self) -> P {
        self.pred
    }
}

impl<Row, P: Expr + for<'x> Eval<'x, Row>> RowFilter<Row> for PredFilter<P> where P::SqlType: for<'x> TruthValue<'x> {
    open spec fn spec_keeps(&self, row: Row) -> bool {
        truth_of::<'static, Row, P>(self.spec_pred(), row) == Some(true)
    }

    fn keeps(&self, row: &Row) -> (r: bool) {
        self.pred.eval_row(row) == Some(true)
    }
}

impl<Row, P> Rows<Row, P, Unordered> {
    /// The streaming in-memory interpretation over any row source, an
    /// endless one included: rows are pulled as they are asked for, kept
    /// when the predicate is TRUE, the `OFFSET` first ones passed over, and
    /// once `LIMIT` rows are yielded the source is not pulled again.
    pub fn to_memory_stream<'s, S: RowStream<'s, Row>>(self, src: S) -> (r: Streamed<'s, Row, PredFilter<P>, S>)
        where P: Expr + for<'x> Eval<'x, Row>, P::SqlType: for<'x> TruthValue<'x>, Row: 's,
        ensures
            r.spec_filter().spec_pred() == self.spec_pred(),
            r.spec_source() == src,
            r.spec_skip() == offset_of(self.spec_offset()),
            r.spec_left() == limit_of(self.spec_limit()),
    {
        Streamed::new(PredFilter { pred: self.pred }, src, self.offset.unwrap_or(0), self.limit)
    }
}

/// The rows of `src` that `pred` keeps, in order, borrowed.
fn keep_rows<'a, Row, P: Expr + for<'x> Eval<'x, Row>>(pred: &P, src: &'a [Row]) -> (r: Vec<&'a Row>)
    where P::SqlType: for<'x> TruthValue<'x>,
    ensures
        derefs(r@) == kept(src@, keeper::<'a, Row, P>(*pred)),
{
    let ghost keep = keeper::<'a, Row, P>(*pred);
    let mut out: Vec<&'a Row> = Vec::new();
    let mut i: usize = 0;
    while i < src.len()
        invariant
            i <= src@.len(),
            keep == keeper::<'a, Row, P>(*pred),
            derefs(out@) == kept(src@.take(i as int), keep),
        decreases src@.len() - i,
    {
        let row: &'a Row = &src[i];
        proof {
            assert(src@.take(i + 1) == src@.take(i as int).push(*row));
            lemma_kept_push(src@.take(i as int), *row, keep);
        }
        let t = pred.eval(row);
        proof {
            <P::SqlType as TruthValue>::lemma_tri_congruent(t, pred.spec_eval(row));
        }
        if <P::SqlType as TruthValue>::is_true(t) {
            let ghost before = out@;
            out.push(row);
            proof {
                assert(derefs(out@) =~= derefs(before).push(*row));
            }
        }
        i = i + 1;
    }
    proof {
        assert(src@.take(src@.len() as int) == src@);
    }
    out
}

impl<Row, P> Rows<Row, P, Ordered> {
    /// The in-memory interpretation with `ORDER BY`: collects the kept rows
    /// (borrowed, never copied), sorts them stably by the accumulated parts,
    /// then applies `OFFSET` and `LIMIT`.
    pub fn to_memory_sorted<'a>(self, src: &'a [Row]) -> (r: SortedRows<'a, Row>)
        where P: Expr + for<'x> Eval<'x, Row>, P::SqlType: for<'x> TruthValue<'x>,
        ensures
            exists|tagged: Seq<(usize, Row)>|
                {
                    &&& is_stable_sort(ranks_first(self.spec_order()), kept(src@, keeper::<'a, Row, P>(self.spec_pred())), tagged)
                    &&& r.spec_remaining() == window(
                        tagged.map_values(|e: (usize, Row)| e.1),
                        offset_of(self.spec_offset()),
                        limit_of(self.spec_limit()),
                    )
                },
    {
        proof {
            use_type_invariant(&self);
        }
        let kept_rows = keep_rows(&self.pred, src);
        let rows = sort_window(kept_rows, &self.order, self.offset, self.limit);
        let r = SortedRows { rows, pos: 0 };
        proof {
            assert(derefs(rows@).skip(0) == derefs(rows@));
            let tagged = choose|tagged: Seq<(usize, Row)>|
                {
                    &&& is_stable_sort(ranks_first(self.order@), derefs(kept_rows@), tagged)
                    &&& derefs(rows@) == window(tagged.map_values(|e: (usize, Row)| e.1), offset_of(self.offset), limit_of(self.limit))
                };
            assert(r.spec_remaining() == derefs(rows@));
            assert(is_stable_sort(ranks_first(self.spec_order()), kept(src@, keeper::<'a, Row, P>(self.spec_pred())), tagged));
        }
        r
    }
}

/// Materialised, sorted in-memory interpretation of a [`Rows`] value.
pub struct SortedRows<'a, Row> {
    rows: Vec<&'a Row>,
    pos: usize,
}

impl<'a, Row> SortedRows<'a, Row> {
    /// The position never passes the end of the rows.
    #[verifier::type_invariant]
    spec fn pos_in_bounds(&self) -> bool {
        self.pos <= self.rows@.len()
    }

    /// The rows still to come, in order.
    pub closed spec fn spec_remaining(&self) -> Seq<Row> {
        derefs(self.rows@).skip(self.pos as int)
    }

    /// How many rows are still to come, exactly.
    pub fn size_hint(&self) -> (r: (usize, Option<usize>))
        ensures
            r.0 == self.spec_remaining().len(),
            r.1 == Some(r.0),
    {
        proof {
            use_type_invariant(self);
        }
        let n = self.rows.len() - self.pos;
        (n, Some(n))
    }

    /// The next row.
    pub fn next(&mut self) -> (r: Option<&'a Row>)
        ensures
            match r {
                Some(row) => old(self).spec_remaining() == seq![*row] + final(self).spec_remaining(),
                None => old(self).spec_remaining().len() == 0 && final(self).spec_remaining().len() == 0,
            },
    {
        proof {
            use_type_invariant(&*self);
        }
        if self.pos < self.rows.len() {
            let row = self.rows[self.pos];
            proof {
                assert(derefs(self.rows@).skip(self.pos as int) =~= seq![*row] + derefs(self.rows@).skip(self.pos + 1));
            }
            self.pos = self.pos + 1;
            Some(row)
        } else {
            None
        }
    }
}

/// Streaming in-memory interpretation of a [`Rows`] value.
pub struct RowIter<'a, Row, P> {
    rows: &'a [Row],
    pos: usize,
    pred: P,
    skip: u64,
    left: Option<u64>,
}

impl<'a, Row, P> RowIter<'a, Row, P> {
    /// The scan position never passes the end of the rows.
    #[verifier::type_invariant]
    spec fn scan_in_bounds(&self) -> bool {
        self.pos <= self.rows@.len()
    }
}

impl<'a, Row, P: Expr + for<'x> Eval<'x, Row>> RowIter<'a, Row, P> where P::SqlType: for<'x> TruthValue<'x> {
    /// The predicate.
    pub closed spec fn spec_pred(&self) -> P {
        self.pred
    }

    /// The most rows a scan can still yield: those not yet examined, and no
    /// more than the limit left.
    pub closed spec fn spec_scan_bound(&self) -> int {
        scan_bound(self.rows@.len() - self.pos, self.left)
    }

    /// The rows the scan walks, in order.
    pub closed spec fn spec_source(&self) -> Seq<Row> {
        self.rows@
    }

    /// How many rows of the source have been examined so far.
    pub closed spec fn spec_examined(&self) -> nat {
        self.pos as nat
    }

    /// How many kept rows the `OFFSET` still passes over.
    pub closed spec fn spec_skip(&self) -> nat {
        self.skip as nat
    }

    /// How many rows the `LIMIT` still allows, if there is one.
    pub closed spec fn spec_left(&self) -> Option<nat> {
        limit_of(self.left)
    }

    /// The rows still to come, in order.
    pub closed spec fn spec_remaining(&self) -> Seq<Row> {
        streamed(self.rows@.skip(self.pos as int), keeper::<'a, Row, P>(self.pred), self.skip as nat, limit_of(self.left))
    }

    /// How many rows of the source have been examined so far.
    pub fn examined(&self) -> (r: usize)
        ensures
            r == self.spec_examined(),
    {
        self.pos
    }

    /// Bounds on how many rows are still to come: none promised, at most
    /// the rows not yet examined and at most the limit left.
    pub fn size_hint(&self) -> (r: (usize, Option<usize>))
        ensures
            r.0 == 0,
            r.1 == Some(self.spec_scan_bound() as usize),
            r.0 <= self.spec_remaining().len(),
            self.spec_remaining().len() <= self.spec_scan_bound(),
    {
        proof {
            use_type_invariant(self);
            lemma_streamed_len(self.rows@.skip(self.pos as int), keeper::<'a, Row, P>(self.pred), self.skip as nat, limit_of(self.left));
        }
        (0, Some(scan_bound_of(self.rows.len() - self.pos, self.left)))
    }

    /// The next row the query yields. Rows are examined only as far as the
    /// one returned: of the rows examined by this call, the last is the one
    /// returned, and the kept ones before it are exactly those the `OFFSET`
    /// passes over. Once the `LIMIT` is used up, nothing more is examined.
    pub fn next(&mut self) -> (r: Option<&'a Row>)
        ensures
            final(self).spec_pred() == old(self).spec_pred(),
            final(self).spec_source() == old(self).spec_source(),
            old(self).spec_examined() <= final(self).spec_examined() <= old(self).spec_source().len(),
            match r {
                Some(row) => old(self).spec_remaining() == seq![*row] + final(self).spec_remaining(),
                None => old(self).spec_remaining().len() == 0 && final(self).spec_remaining().len() == 0,
            },
            r matches Some(row) ==> {
                &&& old(self).spec_examined() < final(self).spec_examined()
                &&& *row == old(self).spec_source()[final(self).spec_examined() - 1]
                &&& kept(
                    old(self).spec_source().subrange(old(self).spec_examined() as int, final(self).spec_examined() - 1),
                    keeper::<'a, Row, P>(old(self).spec_pred()),
                ).len() == old(self).spec_skip()
            },
            old(self).spec_left() == Some(0nat) ==> r is None && final(self).spec_examined() == old(self).spec_examined(),
    {
        proof {
            use_type_invariant(&*self);
        }
        if self.left == Some(0u64) {
            return None;
        }
        let rows: &'a [Row] = self.rows;
        let ghost keep = keeper::<'a, Row, P>(self.pred);
        let ghost goal = old(self).spec_remaining();
        let ghost start = old(self).pos as int;
        let ghost skip0 = old(self).skip as int;
        proof {
            assert(rows@.subrange(start, start) =~= Seq::<Row>::empty());
        }
        while self.pos < rows.len()
            invariant
                self.rows == rows,
                self.pred == old(self).pred,
                rows@ == old(self).rows@,
                keep == keeper::<'a, Row, P>(self.pred),
                start == old(self).pos,
                skip0 == old(self).skip,
                start <= self.pos <= rows@.len(),
                self.left == old(self).left,
                self.left != Some(0u64),
                goal == old(self).spec_remaining(),
                goal == streamed(rows@.skip(self.pos as int), keep, self.skip as nat, limit_of(self.left)),
                kept(rows@.subrange(start, self.pos as int), keep).len() + self.skip == skip0,
            decreases rows@.len() - self.pos,
        {
            let row: &'a Row = &rows[self.pos];
            proof {
                assert(rows@.skip(self.pos as int).drop_first() == rows@.skip(self.pos + 1));
                assert(rows@.skip(self.pos as int)[0] == *row);
                assert(rows@.subrange(start, self.pos + 1) =~= rows@.subrange(start, self.pos as int).push(*row));
                lemma_kept_push(rows@.subrange(start, self.pos as int), *row, keep);
            }
            self.pos = self.pos + 1;
            let t = self.pred.eval(row);
            proof {
                <P::SqlType as TruthValue>::lemma_tri_congruent(t, self.pred.spec_eval(row));
            }
            if !<P::SqlType as TruthValue>::is_true(t) {
                continue;
            }
            if self.skip > 0 {
                self.skip = self.skip - 1;
                continue;
            }
            match self.left {
                Some(n) => {
                    self.left = Some(n - 1);
                },
                None => {},
            }
            assert(keep(*row));
            assert(goal == seq![*row] + streamed(rows@.skip(self.pos as int), keep, self.skip as nat, limit_of(self.left)));
            return Some(row);
        }
        proof {
            assert(rows@.skip(self.pos as int).len() == 0);
        }
        None
    }
}

} // verus!
