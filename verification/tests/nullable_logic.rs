use linq_rs::eval::Eval;
use linq_rs::expr::{not, And, Expr, Gt, IsNotNull, IsNull, Like, Or};
use linq_rs::rows::{query, Entity, RowIter, SortedRows};
use linq_rs::tri::TruthValue;
use linq_rs::sql_types::{Boolean, Integer, Nullable, Text};
use linq_rs::value::SqlValue;
use linq_rs::expr::BelongsTo;

pub struct T {
    pub id: i64,
    pub nick: Option<String>,
    pub score: Option<i64>,
    pub active: bool,
}

pub struct TTable;

impl Entity for T {
    type Table = TTable;
}

#[derive(Clone, Copy)]
pub struct Id;
#[derive(Clone, Copy)]
pub struct Nick;
#[derive(Clone, Copy)]
pub struct Score;
#[derive(Clone, Copy)]
pub struct Active;

impl Expr for Id {
    type SqlType = Integer;
    fn write_to(&self, sql: &mut String, _params: &mut Vec<SqlValue>) {
        sql.push_str("id");
    }
}
impl<'r> Eval<'r, T> for Id {
    fn eval(&'r self, row: &'r T) -> i64 {
        row.id
    }
}

impl Expr for Nick {
    type SqlType = Nullable<Text>;
    fn write_to(&self, sql: &mut String, _params: &mut Vec<SqlValue>) {
        sql.push_str("nick");
    }
}
impl<'r> Eval<'r, T> for Nick {
    fn eval(&'r self, row: &'r T) -> Option<&'r str> {
        row.nick.as_deref()
    }
}

impl Expr for Score {
    type SqlType = Nullable<Integer>;
    fn write_to(&self, sql: &mut String, _params: &mut Vec<SqlValue>) {
        sql.push_str("score");
    }
}
impl<'r> Eval<'r, T> for Score {
    fn eval(&'r self, row: &'r T) -> Option<i64> {
        row.score
    }
}

impl Expr for Active {
    type SqlType = Boolean;
    fn write_to(&self, sql: &mut String, _params: &mut Vec<SqlValue>) {
        sql.push_str("active");
    }
}
impl<'r> Eval<'r, T> for Active {
    fn eval(&'r self, row: &'r T) -> bool {
        row.active
    }
}

fn fixture() -> Vec<T> {
    vec![
        T { id: 1, nick: Some("ann".into()), score: Some(10), active: true },
        T { id: 2, nick: None, score: None, active: true },
        T { id: 3, nick: Some("bob".into()), score: Some(3), active: false },
        T { id: 4, nick: None, score: Some(7), active: true },
    ]
}

/// The `WHERE` fragment a predicate renders to, and what it binds.
fn render<E: Expr>(e: &E) -> (String, Vec<SqlValue>) {
    let mut sql = String::new();
    let mut params = Vec::new();
    e.write_to(&mut sql, &mut params);
    (sql, params)
}

fn collect_ids<P>(mut it: RowIter<'_, T, P>) -> Vec<i64>
where
    P: Expr + for<'x> Eval<'x, T>,
    P::SqlType: for<'x> TruthValue<'x>,
{
    let mut out: Vec<i64> = Vec::new();
    while let Some(r) = it.next() {
        out.push(r.id);
    }
    out
}

fn sorted_ids(mut it: SortedRows<'_, T>) -> Vec<i64> {
    let mut out: Vec<i64> = Vec::new();
    while let Some(r) = it.next() {
        out.push(r.id);
    }
    out
}

#[test]
fn null_equals_null_is_not_true_so_no_row_survives() {
    let rows = fixture();
    let p = linq_rs::expr::Eq::new(Score, None::<i64>);
    assert_eq!(render(&p), ("(score = ?)".to_string(), vec![SqlValue::Null]));
    let ids = collect_ids(query::<T>().filter(p).to_memory(&rows));
    assert_eq!(ids, Vec::<i64>::new());
}

#[test]
fn null_gt_five_is_null_not_false_which_only_shows_under_not() {
    let rows = fixture();
    let p = not(Gt::new(Score, 5));
    assert_eq!(render(&p).0, "NOT ((score > ?))");
    let ids = collect_ids(query::<T>().filter(p).to_memory(&rows));
    assert_eq!(ids, [3]);
}

#[test]
fn not_null_eq_one_is_null() {
    let rows = fixture();
    let ids = collect_ids(query::<T>().filter(not(linq_rs::expr::Eq::new(Score, 1))).to_memory(&rows));
    assert_eq!(ids, [1, 3, 4], "row 2 is NULL = 1 -> NULL -> NOT NULL -> NULL");
}

#[test]
fn kleene_and_or() {
    let rows = fixture();
    let ids = collect_ids(query::<T>()
        .filter(not(And::new(Gt::new(Score, 5), linq_rs::expr::Eq::new(Active, false))))
        .to_memory(&rows));
    assert_eq!(ids, [1, 2, 3, 4], "NULL AND FALSE must be FALSE, so NOT(..) is TRUE");

    let ids = collect_ids(query::<T>()
        .filter(not(And::new(Gt::new(Score, 5), linq_rs::expr::Eq::new(Active, true))))
        .to_memory(&rows));
    assert_eq!(ids, [3], "NULL AND TRUE is NULL, so NOT(..) is NULL and row 2 drops");

    let ids = collect_ids(query::<T>().filter(Or::new(Gt::new(Score, 5), linq_rs::expr::Eq::new(Id, 2))).to_memory(&rows));
    assert_eq!(ids, [1, 2, 4]);

    let ids =
        collect_ids(query::<T>().filter(Or::new(Gt::new(Score, 5), linq_rs::expr::Eq::new(Active, false))).to_memory(&rows));
    assert_eq!(ids, [1, 3, 4]);
}

#[test]
fn is_null_and_is_not_null_now_evaluate() {
    let rows = fixture();
    let p = IsNull::new(Score);
    assert_eq!(render(&p).0, "(score IS NULL)");
    assert_eq!(collect_ids(query::<T>().filter(p).to_memory(&rows)), [2]);

    let p = IsNotNull::new(Nick);
    assert_eq!(render(&p).0, "(nick IS NOT NULL)");
    assert_eq!(collect_ids(query::<T>().filter(p).to_memory(&rows)), [1, 3]);
}

#[test]
fn is_null_on_a_non_nullable_column_is_constant_false_in_both_interpreters() {
    let rows = fixture();
    let p = IsNull::new(Id);
    assert_eq!(render(&p).0, "(id IS NULL)");
    let ids = collect_ids(query::<T>().filter(p).to_memory(&rows));
    assert_eq!(ids, Vec::<i64>::new(), "a NOT NULL column IS NULL is FALSE, not an error");
}

#[test]
fn nullable_may_be_compared_to_non_nullable() {
    let rows = fixture();
    let p = Gt::new(Score, Id);
    assert_eq!(render(&p).0, "(score > id)");
    assert_eq!(collect_ids(query::<T>().filter(p).to_memory(&rows)), [1, 4]);
}

#[test]
fn mixing_nullable_and_non_nullable_predicates() {
    let rows = fixture();
    let q = query::<T>().filter(Gt::new(Score, 5)).filter(IsNotNull::new(Nick));
    assert_eq!(collect_ids(q.to_memory(&rows)), [1]);
    let p = And::new(Gt::new(Score, 5), IsNotNull::new(Nick));
    assert_eq!(render(&p).0, "((score > ?) AND (nick IS NOT NULL))");
}

#[test]
fn like_over_a_nullable_text_column_is_three_valued() {
    let rows = fixture();
    let p = Like::new(Nick, "a%");
    assert_eq!(render(&p).0, "(nick LIKE ?)");
    assert_eq!(collect_ids(query::<T>().filter(p).to_memory(&rows)), [1], "NULL LIKE 'a%' is NULL, not FALSE -- but WHERE drops both");
}

#[test]
fn ordering_by_a_non_nullable_column_still_works_with_a_nullable_filter() {
    let rows = fixture();
    let q = query::<T>().filter(IsNotNull::new(Score)).order_by_desc(Id);
    assert_eq!(sorted_ids(q.to_memory_sorted(&rows)), [4, 3, 1]);
}

#[test]
fn a_present_nullable_literal_binds_its_value_not_null() {
    let rows = fixture();
    let p = linq_rs::expr::Eq::new(Score, Some(7i64));
    assert_eq!(render(&p).1, vec![SqlValue::Integer(7)]);
    assert_eq!(collect_ids(query::<T>().filter(p).to_memory(&rows)), [4]);
}

#[test]
fn nullable_text_column_reads_as_option_str_without_allocating() {
    let rows = fixture();
    let ids = collect_ids(query::<T>().filter(linq_rs::expr::Eq::new(Nick, "bob")).to_memory(&rows));
    assert_eq!(ids, [3]);
}

#[test]
fn row_sets_match_sqlite_on_the_same_four_rows() {
    let rows = fixture();
    assert_eq!(collect_ids(query::<T>().filter(linq_rs::expr::Eq::new(Score, 7i64)).to_memory(&rows)), [4]);
    assert_eq!(collect_ids(query::<T>().filter(Gt::new(Score, 5i64)).to_memory(&rows)), [1, 4]);
    assert_eq!(collect_ids(query::<T>().filter(IsNull::new(Nick)).to_memory(&rows)), [2, 4]);
    assert_eq!(
        collect_ids(query::<T>().filter(not(linq_rs::expr::Eq::new(Score, 3i64))).to_memory(&rows)),
        [1, 4],
        "NOT(NULL = 3) is NULL, so row 2 must not survive"
    );
    assert_eq!(collect_ids(query::<T>().filter(And::new(Gt::new(Score, 5i64), Gt::new(Id, 0i64))).to_memory(&rows)), [1, 4]);
    assert_eq!(
        collect_ids(query::<T>().filter(Or::new(Gt::new(Score, 5i64), Gt::new(Id, 0i64))).to_memory(&rows)),
        [1, 2, 3, 4],
        "NULL OR TRUE is TRUE, so row 2 must survive"
    );
}

impl BelongsTo<TTable> for Active {}
impl BelongsTo<TTable> for Id {}
impl BelongsTo<TTable> for Nick {}
impl BelongsTo<TTable> for Score {}
