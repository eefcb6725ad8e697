//! The erased form of a query value: the predicate as a list of boxed
//! clauses rather than one nested type, so that a query can be built up at
//! run time (in a loop, under a condition) and still be interpreted both
//! ways.
use vstd::prelude::*;

use crate::eval::Eval;
use crate::expr::{binary_sql, param_views, And, BelongsTo, Expr, ParamView};
use crate::sql_types::LogicWith;
use crate::ordered::{is_stable_sort, lemma_stable_sort_unique};
use crate::rows::{
    typed_params, typed_statement,
    all_lawful, column_rank, keeper, order_part, ranks_first, sort_window, Entity, OrderPart, Rows,
};
use crate::sortable::Sortable;
use crate::stream::{RowFilter, RowStream, Streamed};
use crate::statement::{order_item_sql, order_sqls, render_select, select_sql, QueryOutput, Table};
use crate::tri::{keeps, lemma_keeps_distributes, TriLogic, TruthValue};
use crate::value::SqlValue;
use crate::window::{derefs, kept, lemma_kept_all, lemma_kept_congruent, lemma_kept_push, lemma_kept_twice, lemma_streamed_is_window, lemma_streamed_len, scan_bound, scan_bound_of, limit_of, offset_of, streamed, window};
use vstd::string::StringExecFns;

verus! {

/// A predicate with its SQL rendering and its three-valued reading of a
/// row, behind one object-safe interface.
pub trait DynPred<Row> {
    /// The three-valued truth of this predicate on `row`: `None` is NULL.
    spec fn spec_truth(&self, row: Row) -> Option<bool>;

    /// The SQL text this predicate renders to.
    spec fn spec_sql(&self) -> Seq<char>;

    /// The parameters it binds, in placeholder order.
    spec fn spec_params(&self) -> Seq<ParamView>;

    /// Appends this predicate's SQL and parameters.
    fn write_sql(&self, sql: &mut String, params: &mut Vec<SqlValue>)
        ensures
            final(sql)@ == old(sql)@ + self.spec_sql(),
            param_views(final(params)@) == param_views(old(params)@) + self.spec_params(),
    ;

    /// Evaluates this predicate on `row`.
    fn eval_row(&self, row: &Row) -> (r: Option<bool>)
        ensures
            r == self.spec_truth(*row),
    ;
}

/// One clause of an erased predicate.
#[verifier::reject_recursive_types(Row)]
pub struct Clause<'a, Row> {
    pred: Box<dyn DynPred<Row> + 'a>,
}

impl<'a, Row> Clause<'a, Row> {
    /// Wraps a predicate as a clause.
    pub fn new<P: DynPred<Row> + 'a>(pred: P) -> (r: Self)
        ensures
            forall|row: Row| #[trigger] r.spec_truth(row) == pred.spec_truth(row),
            r.spec_sql() == pred.spec_sql(),
            r.spec_params() == pred.spec_params(),
    {
        Clause { pred: Box::new(pred) }
    }

    /// The three-valued truth of this clause on `row`.
    pub closed spec fn spec_truth(&self, row: Row) -> Option<bool> {
        self.pred.spec_truth(row)
    }

    /// The SQL text of this clause.
    pub closed spec fn spec_sql(&self) -> Seq<char> {
        self.pred.spec_sql()
    }

    /// The parameters of this clause.
    pub closed spec fn spec_params(&self) -> Seq<ParamView> {
        self.pred.spec_params()
    }

    /// Appends this clause's SQL and parameters.
    pub fn write_sql(&self, sql: &mut String, params: &mut Vec<SqlValue>)
        ensures
            final(sql)@ == old(sql)@ + self.spec_sql(),
            param_views(final(params)@) == param_views(old(params)@) + self.spec_params(),
    {
        self.pred.write_sql(sql, params)
    }

    /// Evaluates this clause on `row`.
    pub fn eval_row(&self, row: &Row) -> (r: Option<bool>)
        ensures
            r == self.spec_truth(*row),
    {
        self.pred.eval_row(row)
    }
}

/// The three-valued truth of `pred` on `row`.
pub open spec fn truth_of<'x, Row, P: Eval<'x, Row>>(pred: P, row: Row) -> Option<bool>
    where P::SqlType: TruthValue<'x>,
{
    <P::SqlType as TruthValue<'x>>::spec_tri(pred.spec_eval(&row))
}

/// Every typed predicate is a clause.
impl<Row, P: Expr + for<'x> Eval<'x, Row>> DynPred<Row> for P where P::SqlType: for<'x> TruthValue<'x> {
    open spec fn spec_truth(&self, row: Row) -> Option<bool> {
        truth_of::<'static, Row, P>(*self, row)
    }

    open spec fn spec_sql(&self) -> Seq<char> {
        Expr::spec_sql(self)
    }

    open spec fn spec_params(&self) -> Seq<ParamView> {
        Expr::spec_params(self)
    }

    fn write_sql(&self, sql: &mut String, params: &mut Vec<SqlValue>) {
        Expr::write_to(self, sql, params)
    }

    fn eval_row(&self, row: &Row) -> (r: Option<bool>) {
        let t = self.eval(row);
        proof {
            <P::SqlType as TruthValue>::lemma_tri_congruent(t, Eval::spec_eval(self, row));
        }
        <P::SqlType as TruthValue>::to_tri(t)
    }
}

// ═══════════════════════════════════════════════════════════════════════
// Rendering a conjunction
// ═══════════════════════════════════════════════════════════════════════

/// The SQL of the clauses joined by `AND`, nested to the left:
/// `((a AND b) AND c)`. One clause renders as itself, none as nothing.
pub open spec fn conjunction_sql(parts: Seq<Seq<char>>) -> Seq<char>
    decreases parts.len(),
{
    if parts.len() == 0 {
        Seq::empty()
    } else if parts.len() == 1 {
        parts[0]
    } else {
        "("@ + conjunction_sql(parts.drop_last()) + " AND "@ + parts.last() + ")"@
    }
}

/// `n` opening parentheses.
pub open spec fn opening_parens(n: nat) -> Seq<char>
    decreases n,
{
    if n == 0 {
        Seq::empty()
    } else {
        "("@ + opening_parens((n - 1) as nat)
    }
}

/// Each of `parts` as ` AND part)`, in order.
pub open spec fn and_closings(parts: Seq<Seq<char>>) -> Seq<char>
    decreases parts.len(),
{
    if parts.len() == 0 {
        Seq::empty()
    } else {
        and_closings(parts.drop_last()) + " AND "@ + parts.last() + ")"@
    }
}

/// The nested conjunction is its opening parentheses, the first clause, and
/// a closing for each further clause.
proof fn lemma_conjunction_flat(parts: Seq<Seq<char>>)
    requires
        parts.len() >= 1,
    ensures
        conjunction_sql(parts) == opening_parens((parts.len() - 1) as nat) + parts[0] + and_closings(
            parts.subrange(1, parts.len() as int),
        ),
    decreases parts.len(),
{
    if parts.len() == 1 {
        assert(parts.subrange(1, 1) =~= Seq::<Seq<char>>::empty());
        assert(opening_parens(0) =~= Seq::<char>::empty());
        assert(and_closings(Seq::<Seq<char>>::empty()) =~= Seq::<char>::empty());
        assert(conjunction_sql(parts) =~= opening_parens(0) + parts[0] + and_closings(parts.subrange(1, 1)));
    } else {
        let init = parts.drop_last();
        lemma_conjunction_flat(init);
        let n = parts.len();
        assert(init[0] == parts[0]);
        assert(parts.subrange(1, n as int).drop_last() =~= init.subrange(1, init.len() as int));
        assert(parts.subrange(1, n as int).last() == parts.last());
        assert(conjunction_sql(parts) =~= opening_parens((n - 1) as nat) + parts[0] + and_closings(parts.subrange(1, n as int)));
    }
}

/// The SQL text of each clause.
pub open spec fn clause_sqls<Row>(clauses: Seq<Clause<'_, Row>>) -> Seq<Seq<char>> {
    clauses.map_values(|c: Clause<'_, Row>| c.spec_sql())
}

/// The parameters of the clauses, in order.
pub open spec fn clause_params<Row>(clauses: Seq<Clause<'_, Row>>) -> Seq<ParamView>
    decreases clauses.len(),
{
    if clauses.len() == 0 {
        Seq::empty()
    } else {
        clause_params(clauses.drop_last()) + clauses.last().spec_params()
    }
}

/// Renders the clauses as one `AND`-joined predicate, nested to the left.
pub fn write_conjunction<Row>(clauses: &[Clause<'_, Row>], sql: &mut String, params: &mut Vec<SqlValue>)
    ensures
        final(sql)@ == old(sql)@ + conjunction_sql(clause_sqls(clauses@)),
        param_views(final(params)@) == param_views(old(params)@) + clause_params(clauses@),
{
    let n = clauses.len();
    if n == 0 {
        proof {
            assert(sql@ =~= old(sql)@ + conjunction_sql(clause_sqls(clauses@)));
            assert(param_views(params@) =~= param_views(old(params)@) + clause_params(clauses@));
        }
        return;
    }
    let mut k: usize = 1;
    while k < n
        invariant
            1 <= k <= n == clauses@.len(),
            sql@ == old(sql)@ + opening_parens((k - 1) as nat),
            params@ == old(params)@,
        decreases n - k,
    {
        sql.append("(");
        proof {
            reveal_strlit("(");
            assert(opening_parens(k as nat) =~= opening_parens((k - 1) as nat) + "("@) by {
                lemma_parens_push((k - 1) as nat);
            }
        }
        k = k + 1;
    }
    let ghost sqls = clause_sqls(clauses@);
    let ghost head = old(sql)@ + opening_parens((n - 1) as nat);
    clauses[0].write_sql(sql, params);
    proof {
        let first = clauses@.take(1);
        assert(first.len() == 1);
        assert(first.drop_last().len() == 0);
        assert(clause_params(first.drop_last()) =~= Seq::<ParamView>::empty());
        assert(first.last() == clauses@[0]);
        assert(clause_params(first) =~= clauses@[0].spec_params());
        assert(sqls.subrange(1, 1) =~= Seq::<Seq<char>>::empty());
    }
    let mut i: usize = 1;
    while i < n
        invariant
            1 <= i <= n == clauses@.len(),
            sqls == clause_sqls(clauses@),
            sql@ == head + sqls[0] + and_closings(sqls.subrange(1, i as int)),
            param_views(params@) == param_views(old(params)@) + clause_params(clauses@.take(i as int)),
        decreases n - i,
    {
        sql.append(" AND ");
        clauses[i].write_sql(sql, params);
        sql.append(")");
        proof {
            reveal_strlit(" AND ");
            reveal_strlit(")");
            assert(sqls.subrange(1, i + 1).drop_last() =~= sqls.subrange(1, i as int));
            assert(sqls[i as int] == clauses@[i as int].spec_sql());
            assert(clauses@.take(i + 1).drop_last() =~= clauses@.take(i as int));
            assert(sql@ =~= head + sqls[0] + and_closings(sqls.subrange(1, i + 1)));
        }
        i = i + 1;
    }
    proof {
        lemma_conjunction_flat(sqls);
        assert(clauses@.take(n as int) =~= clauses@);
        assert(sql@ =~= old(sql)@ + conjunction_sql(sqls));
    }
}

/// One more opening parenthesis goes at the end as well as the front.
proof fn lemma_parens_push(n: nat)
    ensures
        opening_parens(n + 1) == opening_parens(n) + "("@,
    decreases n,
{
    if n == 0 {
        assert(opening_parens(0) =~= Seq::<char>::empty());
        assert(opening_parens(1) =~= "("@ + Seq::<char>::empty());
        assert(opening_parens(0) =~= Seq::<char>::empty());
        assert(opening_parens(1) =~= opening_parens(0) + "("@);
    } else {
        lemma_parens_push((n - 1) as nat);
        assert(opening_parens(n + 1) =~= "("@ + opening_parens(n));
        assert("("@ + (opening_parens((n - 1) as nat) + "("@) =~= ("("@ + opening_parens((n - 1) as nat)) + "("@);
    }
}

// ═══════════════════════════════════════════════════════════════════════
// BoxedRows
// ═══════════════════════════════════════════════════════════════════════

/// Whether every clause is TRUE on `row`: FALSE and NULL both drop it.
pub open spec fn clauses_keep<'x, Row>(clauses: Seq<Clause<'x, Row>>) -> spec_fn(Row) -> bool {
    |row: Row| forall|i: int| 0 <= i < clauses.len() ==> (#[trigger] clauses[i]).spec_truth(row) == Some(true)
}

/// Whether every clause is TRUE on `row`.
fn all_clauses_true<Row>(clauses: &[Clause<'_, Row>], row: &Row) -> (r: bool)
    ensures
        r == clauses_keep(clauses@)(*row),
{
    let mut i: usize = 0;
    while i < clauses.len()
        invariant
            i <= clauses@.len(),
            forall|j: int| 0 <= j < i ==> (#[trigger] clauses@[j]).spec_truth(*row) == Some(true),
        decreases clauses@.len() - i,
    {
        match clauses[i].eval_row(row) {
            Some(true) => {},
            _ => {
                return false;
            },
        }
        i = i + 1;
    }
    true
}

/// The clauses of an erased query, as the filter of a streaming scan: a
/// row is kept when every clause is TRUE on it.
#[verifier::reject_recursive_types(Row)]
pub struct ClauseFilter<'p, Row> {
    clauses: &'p [Clause<'p, Row>],
}

impl<'p, Row> ClauseFilter<'p, Row> {
    /// The clauses.
    pub closed spec fn spec_clauses(&self) -> Seq<Clause<'p, Row>> {
        self.clauses@
    }
}

impl<'p, Row> RowFilter<Row> for ClauseFilter<'p, Row> {
    open spec fn spec_keeps(&self, row: Row) -> bool {
        clauses_keep(self.spec_clauses())(row)
    }

    fn keeps(&self, row: &Row) -> (r: bool) {
        all_clauses_true(self.clauses, row)
    }
}

/// A query value whose predicate is a list of boxed clauses, `AND`-ed.
#[verifier::reject_recursive_types(Row)]
pub struct BoxedRows<'a, Row> {
    clauses: Vec<Clause<'a, Row>>,
    order: Vec<OrderPart<Row>>,
    limit: Option<u64>,
    offset: Option<u64>,
}

impl<'a, Row> BoxedRows<'a, Row> {
    /// Every `ORDER BY` part is lawful.
    #[verifier::type_invariant]
    spec fn parts_lawful(&self) -> bool {
        all_lawful(self.order@)
    }

    /// The clauses, in the order they were added.
    pub closed spec fn spec_clauses(&self) -> Seq<Clause<'a, Row>> {
        self.clauses@
    }

    /// The `ORDER BY` parts, most significant first.
    pub closed spec fn spec_order(&self) -> Seq<OrderPart<Row>> {
        self.order@
    }

    /// The `LIMIT`, if any.
    pub closed spec fn spec_limit(&self) -> Option<u64> {
        self.limit
    }

    /// The `OFFSET`, if any.
    pub closed spec fn spec_offset(&self) -> Option<u64> {
        self.offset
    }

    /// Adds an `AND`-joined clause.
    pub fn filter<P2: Expr + for<'x> Eval<'x, Row> + 'a>(self, predicate: P2) -> (r: Self)
        where P2::SqlType: for<'x> TruthValue<'x>, Row: Entity, P2: BelongsTo<Row::Table>,
        ensures
            r.spec_clauses().len() == self.spec_clauses().len() + 1,
            r.spec_clauses().take(self.spec_clauses().len() as int) == self.spec_clauses(),
            forall|row: Row| #[trigger] r.spec_clauses().last().spec_truth(row) == truth_of::<'static, Row, P2>(predicate, row),
            r.spec_clauses().last().spec_sql() == predicate.spec_sql(),
            r.spec_clauses().last().spec_params() == predicate.spec_params(),
            r.spec_order() == self.spec_order(),
            r.spec_limit() == self.spec_limit(),
            r.spec_offset() == self.spec_offset(),
    {
        proof {
            use_type_invariant(&self);
        }
        let mut clauses = self.clauses;
        let ghost before = clauses@;
        let clause: Clause<'a, Row> = Clause::new(predicate);
        clauses.push(clause);
        proof {
            assert(clauses@.take(before.len() as int) =~= before);
        }
        BoxedRows { clauses, order: self.order, limit: self.limit, offset: self.offset }
    }

    /// Appends one `ORDER BY` part.
    fn push_order<C: for<'x> Eval<'x, Row> + 'static>(self, column: C, desc: bool) -> (r: Self)
        where C::SqlType: Sortable,
        ensures
            r.spec_clauses() == self.spec_clauses(),
            r.spec_order().len() == self.spec_order().len() + 1,
            r.spec_order().take(self.spec_order().len() as int) == self.spec_order(),
            forall|a: Row, b: Row| #[trigger] r.spec_order().last().spec_rank(a, b) == column_rank::<'static, Row, C>(column, desc, a, b),
            r.spec_order().last().spec_sql() == order_item_sql(column.spec_sql(), desc),
            r.spec_limit() == self.spec_limit(),
            r.spec_offset() == self.spec_offset(),
    {
        proof {
            use_type_invariant(&self);
        }
        let mut order = self.order;
        let part = order_part(column, desc);
        let ghost before = order@;
        order.push(part);
        proof {
            assert(order@.take(before.len() as int) == before);
            assert forall|i: int| 0 <= i < order@.len() implies (#[trigger] order@[i]).lawful() by {
                if i < before.len() {
                    assert(order@[i] == before[i]);
                }
            }
        }
        BoxedRows { clauses: self.clauses, order, limit: self.limit, offset: self.offset }
    }

    /// `ORDER BY column ASC`: stable, and after any earlier parts.
    pub fn order_by<C: for<'x> Eval<'x, Row> + 'static>(self, column: C) -> (r: Self)
        where C::SqlType: Sortable,
        ensures
            r.spec_clauses() == self.spec_clauses(),
            r.spec_order().len() == self.spec_order().len() + 1,
            r.spec_order().take(self.spec_order().len() as int) == self.spec_order(),
            forall|a: Row, b: Row| #[trigger] r.spec_order().last().spec_rank(a, b) == column_rank::<'static, Row, C>(column, false, a, b),
            r.spec_order().last().spec_sql() == order_item_sql(column.spec_sql(), false),
            r.spec_limit() == self.spec_limit(),
            r.spec_offset() == self.spec_offset(),
    {
        self.push_order(column, false)
    }

    /// `ORDER BY column DESC`: stable, and after any earlier parts.
    pub fn order_by_desc<C: for<'x> Eval<'x, Row> + 'static>(self, column: C) -> (r: Self)
        where C::SqlType: Sortable,
        ensures
            r.spec_clauses() == self.spec_clauses(),
            r.spec_order().len() == self.spec_order().len() + 1,
            r.spec_order().take(self.spec_order().len() as int) == self.spec_order(),
            forall|a: Row, b: Row| #[trigger] r.spec_order().last().spec_rank(a, b) == column_rank::<'static, Row, C>(column, true, a, b),
            r.spec_order().last().spec_sql() == order_item_sql(column.spec_sql(), true),
            r.spec_limit() == self.spec_limit(),
            r.spec_offset() == self.spec_offset(),
    {
        self.push_order(column, true)
    }

    /// `LIMIT n`.
    pub fn limit(self, n: u64) -> (r: Self)
        ensures
            r.spec_clauses() == self.spec_clauses(),
            r.spec_order() == self.spec_order(),
            r.spec_limit() == Some(n),
            r.spec_offset() == self.spec_offset(),
    {
        proof {
            use_type_invariant(&self);
        }
        BoxedRows { limit: Some(n), ..self }
    }

    /// `OFFSET n`.
    pub fn offset(self, n: u64) -> (r: Self)
        ensures
            r.spec_clauses() == self.spec_clauses(),
            r.spec_order() == self.spec_order(),
            r.spec_limit() == self.spec_limit(),
            r.spec_offset() == Some(n),
    {
        proof {
            use_type_invariant(&self);
        }
        BoxedRows { offset: Some(n), ..self }
    }

    /// The `WHERE` clause: the clauses joined by `AND`, nested to the left,
    /// with their parameters in order; `None` when there is no clause.
    pub fn where_sql(&self) -> (r: Option<(String, Vec<SqlValue>)>)
        ensures
            match r {
                None => self.spec_clauses().len() == 0,
                Some((sql, params)) => {
                    &&& self.spec_clauses().len() > 0
                    &&& sql@ == conjunction_sql(clause_sqls(self.spec_clauses()))
                    &&& param_views(params@) == clause_params(self.spec_clauses())
                },
            },
    {
        if self.clauses.len() == 0 {
            return None;
        }
        let mut sql = String::new();
        let mut params: Vec<SqlValue> = Vec::new();
        write_conjunction(self.clauses.as_slice(), &mut sql, &mut params);
        proof {
            assert(sql@ =~= conjunction_sql(clause_sqls(self.clauses@)));
            assert(param_views(params@) =~= clause_params(self.clauses@));
        }
        Some((sql, params))
    }

    /// The streaming in-memory interpretation over any row source, an
    /// endless one included: rows are pulled as they are asked for, kept
    /// when every clause is TRUE, the `OFFSET` first ones passed over, and
    /// once `LIMIT` rows are yielded the source is not pulled again. For a
    /// query without `ORDER BY`.
    pub fn to_memory_stream<'p, 's, S: RowStream<'s, Row>>(&'p self, src: S) -> (r: Streamed<'s, Row, ClauseFilter<'p, Row>, S>)
        where 'a: 'p, Row: 's,
        requires
            self.spec_order().len() == 0,
        ensures
            r.spec_filter().spec_clauses() == self.spec_clauses(),
            r.spec_source() == src,
            r.spec_skip() == offset_of(self.spec_offset()),
            r.spec_left() == limit_of(self.spec_limit()),
    {
        let clauses: &'p [Clause<'p, Row>] = self.clauses.as_slice();
        Streamed::new(ClauseFilter { clauses }, src, self.offset.unwrap_or(0), self.limit)
    }

    /// The whole statement: `SELECT` from the row type's table, the clauses
    /// `AND`-ed into the `WHERE` clause when there are any, then `ORDER BY`,
    /// `LIMIT` and `OFFSET`, with the values bound to its placeholders.
    pub fn to_sql(&self) -> (r: QueryOutput)
        where Row: Entity, Row::Table: Table,
        ensures
            r.sql@ == select_sql(
                <Row::Table as Table>::spec_name(),
                <Row::Table as Table>::spec_columns(),
                if self.spec_clauses().len() > 0 {
                    Some(conjunction_sql(clause_sqls(self.spec_clauses())))
                } else {
                    None
                },
                order_sqls(self.spec_order()),
                self.spec_limit(),
                self.spec_offset(),
            ),
            param_views(r.params@) == clause_params(self.spec_clauses()),
            r.sql@ == erased_statement(*self),
    {
        let table = <Row::Table as Table>::name();
        let columns = <Row::Table as Table>::columns();
        match self.where_sql() {
            Some((text, params)) => {
                let sql = render_select(table, columns, Some(text.as_str()), self.order.as_slice(), self.limit, self.offset);
                QueryOutput { sql, params }
            },
            None => {
                let sql = render_select(table, columns, None, self.order.as_slice(), self.limit, self.offset);
                let params: Vec<SqlValue> = Vec::new();
                proof {
                    assert(param_views(params@) =~= clause_params(self.clauses@));
                }
                QueryOutput { sql, params }
            },
        }
    }

    /// The in-memory interpretation. Without `ORDER BY` it streams, row by
    /// row; with it, it collects the kept rows (borrowed), sorts them
    /// stably and applies `OFFSET` and `LIMIT`.
    pub fn to_memory<'p, 's>(&'p self, src: &'s [Row]) -> (r: BoxedRowIter<'p, 's, Row>)
        where 'a: 'p,
        ensures
            r.spec_is_streaming() == (self.spec_order().len() == 0),
            r.spec_source() == src@,
            r.spec_keep() == clauses_keep(self.spec_clauses()),
            r.spec_examined() == if self.spec_order().len() == 0 { 0 } else { src@.len() },
            self.spec_order().len() == 0 ==> r.spec_remaining() == window(
                kept(src@, clauses_keep(self.spec_clauses())),
                offset_of(self.spec_offset()),
                limit_of(self.spec_limit()),
            ),
            self.spec_order().len() > 0 ==> exists|tagged: Seq<(usize, Row)>|
                {
                    &&& is_stable_sort(ranks_first(self.spec_order()), kept(src@, clauses_keep(self.spec_clauses())), tagged)
                    &&& r.spec_remaining() == window(
                        tagged.map_values(|e: (usize, Row)| e.1),
                        offset_of(self.spec_offset()),
                        limit_of(self.spec_limit()),
                    )
                },
    {
        proof {
            use_type_invariant(self);
        }
        let clauses: &'p [Clause<'p, Row>] = self.clauses.as_slice();
        let ghost keep = clauses_keep(self.clauses@);
        if self.order.len() == 0 {
            let it = BoxedRowIter {
                streaming: true,
                rows: src,
                sorted: Vec::new(),
                pos: 0,
                clauses,
                skip: self.offset.unwrap_or(0),
                left: self.limit,
            };
            proof {
                assert(src@.skip(0) == src@);
                lemma_streamed_is_window(src@, keep, offset_of(self.offset), limit_of(self.limit));
            }
            return it;
        }
        let mut kept_rows: Vec<&'s Row> = Vec::new();
        let mut i: usize = 0;
        while i < src.len()
            invariant
                i <= src@.len(),
                clauses@ == self.clauses@,
                keep == clauses_keep(self.clauses@),
                derefs(kept_rows@) == kept(src@.take(i as int), keep),
            decreases src@.len() - i,
        {
            let row: &'s Row = &src[i];
            proof {
                assert(src@.take(i + 1) == src@.take(i as int).push(*row));
                lemma_kept_push(src@.take(i as int), *row, keep);
            }
            if all_clauses_true(clauses, row) {
                let ghost before = kept_rows@;
                kept_rows.push(row);
                proof {
                    assert(derefs(kept_rows@) =~= derefs(before).push(*row));
                }
            }
            i = i + 1;
        }
        proof {
            assert(src@.take(src@.len() as int) == src@);
        }
        let ghost kept_view = kept_rows@;
        let sorted = sort_window(kept_rows, &self.order, self.offset, self.limit);
        let it = BoxedRowIter { streaming: false, rows: src, sorted, pos: 0, clauses, skip: 0, left: None };
        proof {
            assert(derefs(sorted@).skip(0) == derefs(sorted@));
            let tagged = choose|tagged: Seq<(usize, Row)>|
                {
                    &&& is_stable_sort(ranks_first(self.order@), derefs(kept_view), tagged)
                    &&& derefs(sorted@) == window(tagged.map_values(|e: (usize, Row)| e.1), offset_of(self.offset), limit_of(self.limit))
                };
            assert(it.spec_remaining() == derefs(sorted@));
            assert(is_stable_sort(ranks_first(self.spec_order()), kept(src@, clauses_keep(self.spec_clauses())), tagged));
        }
        it
    }
}

impl<Row, P, O> Rows<Row, P, O> {
    /// Erases the predicate's type: the query becomes a list of clauses
    /// (one if it was filtered, none if not) that more can be added to.
    pub fn into_boxed<'a>(self) -> (r: BoxedRows<'a, Row>)
        where P: Expr + for<'x> Eval<'x, Row> + 'a, P::SqlType: for<'x> TruthValue<'x>,
        ensures
            r.spec_clauses().len() == if self.spec_filtered() { 1int } else { 0int },
            self.spec_filtered() ==> forall|row: Row| #[trigger] r.spec_clauses()[0].spec_truth(row) == truth_of::<'static, Row, P>(self.spec_pred(), row),
            self.spec_filtered() ==> r.spec_clauses()[0].spec_sql() == self.spec_pred().spec_sql(),
            self.spec_filtered() ==> r.spec_clauses()[0].spec_params() == self.spec_pred().spec_params(),
            r.spec_order() == self.spec_order(),
            r.spec_limit() == self.spec_limit(),
            r.spec_offset() == self.spec_offset(),
    {
        let (pred, filtered, order, limit, offset) = self.into_parts();
        let mut clauses: Vec<Clause<'a, Row>> = Vec::new();
        if filtered {
            let clause: Clause<'a, Row> = Clause::new(pred);
            clauses.push(clause);
        }
        BoxedRows { clauses, order, limit, offset }
    }
}

/// Begins an erased query over `Row`: no clause, no order, no limit, no
/// offset.
pub fn boxed_query<'a, Row: Entity + 'a>() -> (r: BoxedRows<'a, Row>)
    ensures
        r.spec_clauses().len() == 0,
        r.spec_order().len() == 0,
        r.spec_limit() is None,
        r.spec_offset() is None,
{
    crate::rows::query::<Row>().into_boxed()
}

/// The in-memory interpretation of a [`BoxedRows`]: streaming when the
/// query has no `ORDER BY`, materialised when it has.
#[verifier::reject_recursive_types(Row)]
pub struct BoxedRowIter<'p, 's, Row> {
    streaming: bool,
    rows: &'s [Row],
    sorted: Vec<&'s Row>,
    pos: usize,
    clauses: &'p [Clause<'p, Row>],
    skip: u64,
    left: Option<u64>,
}

impl<'p, 's, Row> BoxedRowIter<'p, 's, Row> {
    /// The position never passes the end of what it walks.
    #[verifier::type_invariant]
    spec fn pos_in_bounds(&self) -> bool {
        if self.streaming {
            self.pos <= self.rows@.len()
        } else {
            self.pos <= self.sorted@.len()
        }
    }

    /// The most rows a scan can still yield: those not yet examined, and no
    /// more than the limit left.
    pub closed spec fn spec_scan_bound(&self) -> int {
        scan_bound(self.rows@.len() - self.pos, self.left)
    }

    /// Whether rows are examined as they are asked for.
    pub closed spec fn spec_is_streaming(&self) -> bool {
        self.streaming
    }

    /// The rows of the source, in order.
    pub closed spec fn spec_source(&self) -> Seq<Row> {
        self.rows@
    }

    /// Which rows every clause holds TRUE on.
    pub closed spec fn spec_keep(&self) -> spec_fn(Row) -> bool {
        clauses_keep(self.clauses@)
    }

    /// How many rows of the source have been examined so far: all of them
    /// once materialised.
    pub closed spec fn spec_examined(&self) -> nat {
        if self.streaming {
            self.pos as nat
        } else {
            self.rows@.len()
        }
    }

    /// How many kept rows the `OFFSET` still passes over, while streaming.
    pub closed spec fn spec_skip(&self) -> nat {
        self.skip as nat
    }

    /// How many rows the `LIMIT` still allows while streaming, if there is one.
    pub closed spec fn spec_left(&self) -> Option<nat> {
        limit_of(self.left)
    }

    /// How many rows of the source have been examined so far.
    pub fn examined(&self) -> (r: usize)
        ensures
            r == self.spec_examined(),
    {
        if self.streaming {
            self.pos
        } else {
            self.rows.len()
        }
    }

    /// The rows still to come, in order.
    pub closed spec fn spec_remaining(&self) -> Seq<Row> {
        if self.streaming {
            streamed(self.rows@.skip(self.pos as int), clauses_keep(self.clauses@), self.skip as nat, limit_of(self.left))
        } else {
            derefs(self.sorted@).skip(self.pos as int)
        }
    }

    /// Whether rows are examined as they are asked for (no `ORDER BY`).
    pub fn is_streaming(&self) -> (r: bool)
        ensures
            r == self.spec_is_streaming(),
    {
        self.streaming
    }

    /// Bounds on how many rows are still to come: exact once materialised;
    /// while streaming, none promised, at most the rows not yet examined
    /// and at most the limit left.
    pub fn size_hint(&self) -> (r: (usize, Option<usize>))
        ensures
            r.0 <= self.spec_remaining().len(),
            r.1 matches Some(h) && self.spec_remaining().len() <= h,
            !self.spec_is_streaming() ==> r.0 == self.spec_remaining().len() && r.1 == Some(r.0),
            self.spec_is_streaming() ==> r.0 == 0 && r.1 == Some(
                self.spec_scan_bound() as usize,
            ),
    {
        proof {
            use_type_invariant(self);
        }
        if self.streaming {
            proof {
                lemma_streamed_len(self.rows@.skip(self.pos as int), clauses_keep(self.clauses@), self.skip as nat, limit_of(self.left));
            }
            (0, Some(scan_bound_of(self.rows.len() - self.pos, self.left)))
        } else {
            let n = self.sorted.len() - self.pos;
            (n, Some(n))
        }
    }

    /// The next row the query yields. While streaming, rows are examined
    /// only as far as the one returned: of the rows examined by this call,
    /// the last is the one returned, and the kept ones before it are exactly
    /// those the `OFFSET` passes over. Once the `LIMIT` is used up, nothing
    /// more is examined.
    pub fn next(&mut self) -> (r: Option<&'s Row>)
        ensures
            final(self).spec_is_streaming() == old(self).spec_is_streaming(),
            final(self).spec_source() == old(self).spec_source(),
            old(self).spec_examined() <= final(self).spec_examined() <= old(self).spec_source().len(),
            match r {
                Some(row) => old(self).spec_remaining() == seq![*row] + final(self).spec_remaining(),
                None => old(self).spec_remaining().len() == 0 && final(self).spec_remaining().len() == 0,
            },
            old(self).spec_is_streaming() && r is Some ==> {
                &&& old(self).spec_examined() < final(self).spec_examined()
                &&& *r->0 == old(self).spec_source()[final(self).spec_examined() - 1]
                &&& kept(
                    old(self).spec_source().subrange(old(self).spec_examined() as int, final(self).spec_examined() - 1),
                    old(self).spec_keep(),
                ).len() == old(self).spec_skip()
            },
            old(self).spec_is_streaming() && old(self).spec_left() == Some(0nat) ==> r is None
                && final(self).spec_examined() == old(self).spec_examined(),
    {
        proof {
            use_type_invariant(&*self);
        }
        if !self.streaming {
            if self.pos < self.sorted.len() {
                let row = self.sorted[self.pos];
                proof {
                    assert(derefs(self.sorted@).skip(self.pos as int) =~= seq![*row] + derefs(self.sorted@).skip(self.pos + 1));
                }
                self.pos = self.pos + 1;
                return Some(row);
            } else {
                return None;
            }
        }
        if self.left == Some(0u64) {
            return None;
        }
        let rows: &'s [Row] = self.rows;
        let clauses: &'p [Clause<'p, Row>] = self.clauses;
        let ghost keep = clauses_keep(clauses@);
        let ghost goal = old(self).spec_remaining();
        let ghost start = old(self).pos as int;
        let ghost skip0 = old(self).skip as int;
        proof {
            assert(rows@.subrange(start, start) =~= Seq::<Row>::empty());
        }
        while self.pos < rows.len()
            invariant
                self.streaming,
                old(self).streaming,
                self.rows == rows,
                rows@ == old(self).rows@,
                self.clauses == clauses,
                clauses@ == old(self).clauses@,
                keep == clauses_keep(clauses@),
                start == old(self).pos,
                skip0 == old(self).skip,
                start <= self.pos <= rows@.len(),
                self.left == old(self).left,
                self.left != Some(0u64),
                goal == old(self).spec_remaining(),
                goal == streamed(rows@.skip(self.pos as int), keep, self.skip as nat, limit_of(self.left)),
                kept(rows@.subrange(start, self.pos as int), keep).len() + self.skip == skip0,
            decreases rows@.len() - self.pos,
        {
            let row: &'s Row = &rows[self.pos];
            proof {
                assert(rows@.skip(self.pos as int).drop_first() == rows@.skip(self.pos + 1));
                assert(rows@.skip(self.pos as int)[0] == *row);
                assert(rows@.subrange(start, self.pos + 1) =~= rows@.subrange(start, self.pos as int).push(*row));
                lemma_kept_push(rows@.subrange(start, self.pos as int), *row, keep);
            }
            self.pos = self.pos + 1;
            if !all_clauses_true(clauses, row) {
                continue;
            }
            if self.skip > 0 {
                self.skip = self.skip - 1;
                continue;
            }
            match self.left {
                Some(n) => {
                    self.left = Some(n - 1);
                },
                None => {},
            }
            return Some(row);
        }
        proof {
            assert(rows@.skip(self.pos as int).len() == 0);
        }
        None
    }
}

// ═══════════════════════════════════════════════════════════════════════
// Laws
// ═══════════════════════════════════════════════════════════════════════

/// Erasing does not change the SQL: a typed predicate `AND`-ed with one more
/// predicate renders exactly as the erased clause list with that clause
/// appended, so a query built by the same filters in either form has the
/// same `WHERE` text.
pub proof fn lemma_and_renders_as_conjunction(sqls: Seq<Seq<char>>, next: Seq<char>)
    requires
        sqls.len() > 0,
    ensures
        binary_sql(conjunction_sql(sqls), " AND "@, next) == conjunction_sql(sqls.push(next)),
{
    assert(sqls.push(next).drop_last() =~= sqls);
    assert(sqls.push(next).len() >= 2);
}

/// A query without clauses keeps every row.
pub proof fn lemma_no_clause_keeps_all<'x, Row>(src: Seq<Row>, clauses: Seq<Clause<'x, Row>>)
    requires
        clauses.len() == 0,
    ensures
        kept(src, clauses_keep(clauses)) == src,
{
    lemma_kept_all(src, clauses_keep(clauses));
}

/// Boxing a filtered query keeps the rows its typed predicate keeps: its
/// one clause is TRUE exactly where the predicate is.
pub proof fn lemma_boxed_keeps_as_typed<'x, Row, P: Expr + for<'y> Eval<'y, Row>>(
    src: Seq<Row>,
    clauses: Seq<Clause<'x, Row>>,
    pred: P,
)
    where P::SqlType: for<'y> TruthValue<'y>,
    requires
        clauses.len() == 1,
        forall|row: Row| #[trigger] clauses[0].spec_truth(row) == truth_of::<'static, Row, P>(pred, row),
    ensures
        kept(src, clauses_keep(clauses)) == kept(src, keeper::<'static, Row, P>(pred)),
{
    assert forall|row: Row| #[trigger] clauses_keep(clauses)(row) == keeper::<'static, Row, P>(pred)(row) by {
        if keeper::<'static, Row, P>(pred)(row) {
            assert forall|i: int| 0 <= i < clauses.len() implies (#[trigger] clauses[i]).spec_truth(row) == Some(true) by {
                assert(i == 0);
            }
        }
        if clauses_keep(clauses)(row) {
            assert(clauses[0].spec_truth(row) == Some(true));
        }
    }
    lemma_kept_congruent(src, clauses_keep(clauses), keeper::<'static, Row, P>(pred));
}

/// Adding a clause narrows what a query keeps to the rows that the clause
/// also holds TRUE on, without reordering them.
pub proof fn lemma_filter_narrows<'x, Row>(src: Seq<Row>, clauses: Seq<Clause<'x, Row>>, clause: Clause<'x, Row>)
    ensures
        kept(src, clauses_keep(clauses.push(clause))) == kept(
            kept(src, clauses_keep(clauses)),
            |row: Row| clause.spec_truth(row) == Some(true),
        ),
{
    let k1 = clauses_keep(clauses);
    let k2 = |row: Row| clause.spec_truth(row) == Some(true);
    lemma_kept_twice(src, k1, k2);
    let all = clauses.push(clause);
    assert forall|row: Row| #[trigger] clauses_keep(all)(row) == (k1(row) && k2(row)) by {
        if k1(row) && k2(row) {
            assert forall|i: int| 0 <= i < all.len() implies (#[trigger] all[i]).spec_truth(row) == Some(true) by {
                if i < clauses.len() {
                    assert(all[i] == clauses[i]);
                }
            }
        }
        if clauses_keep(all)(row) {
            assert(all[clauses.len() as int] == clause);
            assert forall|i: int| 0 <= i < clauses.len() implies (#[trigger] clauses[i]).spec_truth(row) == Some(true) by {
                assert(all[i] == clauses[i]);
            }
        }
    }
    lemma_kept_congruent(src, clauses_keep(all), |x: Row| k1(x) && k2(x));
}

/// A query yields the same rows typed or erased. With the same `ORDER BY`
/// parts, `LIMIT` and `OFFSET`, and erased clauses that keep exactly the
/// rows the typed predicate keeps (as boxing a filtered query gives, and as
/// adding the same filter to both keeps), the rows of the erased query's
/// `to_memory` are the rows of the typed query's `to_memory` (no `ORDER BY`)
/// or `to_memory_sorted` (with it): each is the offset/limit window of the
/// kept rows, stably sorted when ordered, and a stable sort is unique.
pub proof fn lemma_erased_yields_as_typed<Row>(
    src: Seq<Row>,
    keep_typed: spec_fn(Row) -> bool,
    keep_erased: spec_fn(Row) -> bool,
    parts: Seq<OrderPart<Row>>,
    offset: Option<u64>,
    limit: Option<u64>,
    typed_rows: Seq<Row>,
    erased_rows: Seq<Row>,
)
    requires
        forall|row: Row| #[trigger] keep_typed(row) == keep_erased(row),
        parts.len() == 0 ==> typed_rows == window(kept(src, keep_typed), offset_of(offset), limit_of(limit)),
        parts.len() == 0 ==> erased_rows == window(kept(src, keep_erased), offset_of(offset), limit_of(limit)),
        parts.len() > 0 ==> exists|t: Seq<(usize, Row)>|
            {
                &&& is_stable_sort(ranks_first(parts), kept(src, keep_typed), t)
                &&& typed_rows == window(t.map_values(|e: (usize, Row)| e.1), offset_of(offset), limit_of(limit))
            },
        parts.len() > 0 ==> exists|t: Seq<(usize, Row)>|
            {
                &&& is_stable_sort(ranks_first(parts), kept(src, keep_erased), t)
                &&& erased_rows == window(t.map_values(|e: (usize, Row)| e.1), offset_of(offset), limit_of(limit))
            },
    ensures
        typed_rows == erased_rows,
{
    lemma_kept_congruent(src, keep_typed, keep_erased);
    if parts.len() > 0 {
        let t1 = choose|t: Seq<(usize, Row)>|
            {
                &&& is_stable_sort(ranks_first(parts), kept(src, keep_typed), t)
                &&& typed_rows == window(t.map_values(|e: (usize, Row)| e.1), offset_of(offset), limit_of(limit))
            };
        let t2 = choose|t: Seq<(usize, Row)>|
            {
                &&& is_stable_sort(ranks_first(parts), kept(src, keep_erased), t)
                &&& erased_rows == window(t.map_values(|e: (usize, Row)| e.1), offset_of(offset), limit_of(limit))
            };
        lemma_stable_sort_unique(ranks_first(parts), kept(src, keep_typed), t1, t2);
    }
}

/// A typed query filtered by `l` and then by `r` (its predicate becomes
/// `l AND r`) keeps a row exactly when `l` and `r` both keep it, as the
/// erased query with the two clauses does: the `AND` is Kleene
/// conjunction, and only TRUE keeps a row.
pub proof fn lemma_typed_and_keeps_both<Row, L: Eval<'static, Row>, R: Eval<'static, Row>>(pred: And<L, R>, row: Row)
    where
        L::SqlType: TriLogic<'static, R::SqlType>,
        R::SqlType: TruthValue<'static>,
        <L::SqlType as LogicWith<R::SqlType>>::Out: TruthValue<'static>,
    ensures
        keeps(truth_of::<'static, Row, And<L, R>>(pred, row)) == (keeps(truth_of::<'static, Row, L>(pred.spec_left(), row))
            && keeps(truth_of::<'static, Row, R>(pred.spec_right(), row))),
{
    let l = pred.spec_left().spec_eval(&row);
    let r = pred.spec_right().spec_eval(&row);
    <L::SqlType as TriLogic<'static, R::SqlType>>::lemma_and_truth(l, r);
    lemma_keeps_distributes(
        <L::SqlType as TruthValue<'static>>::spec_tri(l),
        <R::SqlType as TruthValue<'static>>::spec_tri(r),
    );
}

/// The `SELECT` statement an erased query renders.
pub open spec fn erased_statement<'a, Row: Entity>(q: BoxedRows<'a, Row>) -> Seq<char>
    where Row::Table: Table,
{
    select_sql(
        <Row::Table as Table>::spec_name(),
        <Row::Table as Table>::spec_columns(),
        if q.spec_clauses().len() > 0 { Some(conjunction_sql(clause_sqls(q.spec_clauses()))) } else { None },
        order_sqls(q.spec_order()),
        q.spec_limit(),
        q.spec_offset(),
    )
}

/// A typed and an erased query that render the same statement: the erased
/// clauses, `AND`-ed and nested to the left, render the typed predicate's
/// text and bind its values (and there are none when the typed query was
/// never filtered), with the same `ORDER BY` items, `LIMIT` and `OFFSET`.
pub open spec fn same_statement<'a, Row, P: Expr, O>(typed: Rows<Row, P, O>, erased: BoxedRows<'a, Row>) -> bool {
    &&& if typed.spec_filtered() {
        &&& erased.spec_clauses().len() > 0
        &&& conjunction_sql(clause_sqls(erased.spec_clauses())) == typed.spec_pred().spec_sql()
        &&& clause_params(erased.spec_clauses()) == typed.spec_pred().spec_params()
    } else {
        erased.spec_clauses().len() == 0
    }
    &&& order_sqls(erased.spec_order()) == order_sqls(typed.spec_order())
    &&& erased.spec_limit() == typed.spec_limit()
    &&& erased.spec_offset() == typed.spec_offset()
}

/// Queries that render the same statement give the same `to_sql`: the
/// same text and the same values in the same order.
pub proof fn lemma_same_statement_same_sql<'a, Row: Entity, P: Expr, O>(typed: Rows<Row, P, O>, erased: BoxedRows<'a, Row>)
    where Row::Table: Table,
    requires
        same_statement(typed, erased),
    ensures
        erased_statement(erased) == typed_statement(typed),
        clause_params(erased.spec_clauses()) == typed_params(typed),
{
    if !typed.spec_filtered() {
        assert(erased.spec_clauses() =~= Seq::<Clause<'a, Row>>::empty());
    }
}

/// Boxing a typed query keeps its statement: its one clause (none if it
/// was never filtered) renders the predicate's text and values, and the
/// order, limit and offset carry over. So `into_boxed().to_sql()` equals
/// the typed `to_sql()`.
pub proof fn lemma_into_boxed_same_statement<'a, Row, P: Expr, O>(typed: Rows<Row, P, O>, erased: BoxedRows<'a, Row>)
    requires
        erased.spec_clauses().len() == if typed.spec_filtered() { 1int } else { 0int },
        typed.spec_filtered() ==> erased.spec_clauses()[0].spec_sql() == typed.spec_pred().spec_sql(),
        typed.spec_filtered() ==> erased.spec_clauses()[0].spec_params() == typed.spec_pred().spec_params(),
        erased.spec_order() == typed.spec_order(),
        erased.spec_limit() == typed.spec_limit(),
        erased.spec_offset() == typed.spec_offset(),
    ensures
        same_statement(typed, erased),
{
    if typed.spec_filtered() {
        let cs = erased.spec_clauses();
        assert(clause_sqls(cs).len() == 1);
        assert(cs.drop_last() =~= Seq::<Clause<'a, Row>>::empty());
        assert(clause_params(cs.drop_last()) =~= Seq::<ParamView>::empty());
        assert(clause_params(cs) =~= cs[0].spec_params());
    }
}

/// Filtering keeps two queries rendering the same statement. The typed
/// filter renders its predicate alone on an unfiltered query and
/// `(old AND new)` on a filtered one (as its `AND` node does); the erased
/// filter appends a clause with the predicate's text and values.
pub proof fn lemma_filter_same_statement<'a, Row, P: Expr, O, P3: Expr, P2: Expr>(
    typed: Rows<Row, P, O>,
    erased: BoxedRows<'a, Row>,
    predicate: P2,
    typed2: Rows<Row, P3, O>,
    erased2: BoxedRows<'a, Row>,
)
    requires
        same_statement(typed, erased),
        typed2.spec_filtered(),
        typed2.spec_pred().spec_sql() == if typed.spec_filtered() {
            binary_sql(typed.spec_pred().spec_sql(), " AND "@, predicate.spec_sql())
        } else {
            predicate.spec_sql()
        },
        typed2.spec_pred().spec_params() == if typed.spec_filtered() {
            typed.spec_pred().spec_params() + predicate.spec_params()
        } else {
            predicate.spec_params()
        },
        typed2.spec_order() == typed.spec_order(),
        typed2.spec_limit() == typed.spec_limit(),
        typed2.spec_offset() == typed.spec_offset(),
        erased2.spec_clauses().len() == erased.spec_clauses().len() + 1,
        erased2.spec_clauses().take(erased.spec_clauses().len() as int) == erased.spec_clauses(),
        erased2.spec_clauses().last().spec_sql() == predicate.spec_sql(),
        erased2.spec_clauses().last().spec_params() == predicate.spec_params(),
        erased2.spec_order() == erased.spec_order(),
        erased2.spec_limit() == erased.spec_limit(),
        erased2.spec_offset() == erased.spec_offset(),
    ensures
        same_statement(typed2, erased2),
{
    let cs = erased.spec_clauses();
    let cs2 = erased2.spec_clauses();
    assert(cs2.drop_last() =~= cs);
    assert(clause_sqls(cs2) =~= clause_sqls(cs).push(predicate.spec_sql()));
    if typed.spec_filtered() {
        lemma_and_renders_as_conjunction(clause_sqls(cs), predicate.spec_sql());
    } else {
        assert(cs =~= Seq::<Clause<'a, Row>>::empty());
        assert(clause_sqls(cs2).len() == 1);
        assert(clause_params(cs2.drop_last()) =~= Seq::<ParamView>::empty());
        assert(clause_params(cs2) =~= predicate.spec_params());
    }
}

/// Ordering keeps two queries rendering the same statement, when both
/// append the same `ORDER BY` item.
pub proof fn lemma_order_same_statement<'a, Row, P: Expr, O, O2>(
    typed: Rows<Row, P, O>,
    erased: BoxedRows<'a, Row>,
    typed2: Rows<Row, P, O2>,
    erased2: BoxedRows<'a, Row>,
)
    requires
        same_statement(typed, erased),
        typed2.spec_filtered() == typed.spec_filtered(),
        typed2.spec_pred() == typed.spec_pred(),
        typed2.spec_order().len() == typed.spec_order().len() + 1,
        typed2.spec_order().take(typed.spec_order().len() as int) == typed.spec_order(),
        erased2.spec_order().len() == erased.spec_order().len() + 1,
        erased2.spec_order().take(erased.spec_order().len() as int) == erased.spec_order(),
        erased2.spec_order().last().spec_sql() == typed2.spec_order().last().spec_sql(),
        erased2.spec_clauses() == erased.spec_clauses(),
        typed2.spec_limit() == typed.spec_limit(),
        typed2.spec_offset() == typed.spec_offset(),
        erased2.spec_limit() == erased.spec_limit(),
        erased2.spec_offset() == erased.spec_offset(),
    ensures
        same_statement(typed2, erased2),
{
    assert(erased2.spec_order().drop_last() =~= erased.spec_order());
    assert(typed2.spec_order().drop_last() =~= typed.spec_order());
    assert(order_sqls(erased2.spec_order()) =~= order_sqls(erased.spec_order()).push(erased2.spec_order().last().spec_sql()));
    assert(order_sqls(typed2.spec_order()) =~= order_sqls(typed.spec_order()).push(typed2.spec_order().last().spec_sql()));
}

/// Setting the same `LIMIT` and `OFFSET` on both keeps two queries
/// rendering the same statement.
pub proof fn lemma_window_same_statement<'a, Row, P: Expr, O>(
    typed: Rows<Row, P, O>,
    erased: BoxedRows<'a, Row>,
    typed2: Rows<Row, P, O>,
    erased2: BoxedRows<'a, Row>,
)
    requires
        same_statement(typed, erased),
        typed2.spec_filtered() == typed.spec_filtered(),
        typed2.spec_pred() == typed.spec_pred(),
        typed2.spec_order() == typed.spec_order(),
        erased2.spec_clauses() == erased.spec_clauses(),
        erased2.spec_order() == erased.spec_order(),
        erased2.spec_limit() == typed2.spec_limit(),
        erased2.spec_offset() == typed2.spec_offset(),
    ensures
        same_statement(typed2, erased2),
{
}

} // verus!

