use linq_rs::boxed::{BoxedRowIter, BoxedRows};
use linq_rs::eval::Eval;
use linq_rs::expr::{not, And, Expr, Gt, GtEq, Like, Lt, LtEq, NotEq, Or};
use linq_rs::rows::{query, Entity, RowIter, SortedRows};
use linq_rs::sql_types::{Boolean, Integer, Text};
use linq_rs::statement::Table;
use linq_rs::tri::TruthValue;
use linq_rs::value::SqlValue;
use linq_rs::expr::BelongsTo;

#[derive(Debug, Clone)]
pub struct Employee {
    pub id: i64,
    pub dept: String,
    pub name: String,
    pub salary: i64,
    pub active: bool,
}

pub struct Employees;

impl Entity for Employee {
    type Table = Employees;
}

impl Table for Employees {
    fn name() -> &'static str {
        "employees"
    }
    fn columns() -> &'static str {
        "*"
    }
}

#[derive(Clone, Copy)]
pub struct Id;
#[derive(Clone, Copy)]
pub struct Dept;
#[derive(Clone, Copy)]
pub struct Name;
#[derive(Clone, Copy)]
pub struct Salary;
#[derive(Clone, Copy)]
pub struct Active;

impl Expr for Id {
    type SqlType = Integer;
    fn write_to(&self, sql: &mut String, _params: &mut Vec<SqlValue>) {
        sql.push_str("id");
    }
}
impl<'r> Eval<'r, Employee> for Id {
    fn eval(&'r self, row: &'r Employee) -> i64 {
        row.id
    }
}
impl Expr for Dept {
    type SqlType = Text;
    fn write_to(&self, sql: &mut String, _params: &mut Vec<SqlValue>) {
        sql.push_str("dept");
    }
}
impl<'r> Eval<'r, Employee> for Dept {
    fn eval(&'r self, row: &'r Employee) -> &'r str {
        &row.dept
    }
}
impl Expr for Name {
    type SqlType = Text;
    fn write_to(&self, sql: &mut String, _params: &mut Vec<SqlValue>) {
        sql.push_str("name");
    }
}
impl<'r> Eval<'r, Employee> for Name {
    fn eval(&'r self, row: &'r Employee) -> &'r str {
        &row.name
    }
}
impl Expr for Salary {
    type SqlType = Integer;
    fn write_to(&self, sql: &mut String, _params: &mut Vec<SqlValue>) {
        sql.push_str("salary");
    }
}
impl<'r> Eval<'r, Employee> for Salary {
    fn eval(&'r self, row: &'r Employee) -> i64 {
        row.salary
    }
}
impl Expr for Active {
    type SqlType = Boolean;
    fn write_to(&self, sql: &mut String, _params: &mut Vec<SqlValue>) {
        sql.push_str("active");
    }
}
impl<'r> Eval<'r, Employee> for Active {
    fn eval(&'r self, row: &'r Employee) -> bool {
        row.active
    }
}

fn eq<L, R>(l: L, r: R) -> linq_rs::expr::Eq<L, R> {
    linq_rs::expr::Eq::new(l, r)
}

fn e(id: i64, dept: &str, name: &str, salary: i64, active: bool) -> Employee {
    Employee { id, dept: dept.to_string(), name: name.to_string(), salary, active }
}

/// Ties on `dept` and on `salary`, and rows sitting on comparison boundaries.
fn corpus() -> Vec<Employee> {
    vec![
        e(1, "eng", "Alice", 180_000, true),
        e(2, "sales", "Bob", 150_000, true),
        e(3, "eng", "Ann", 100_000, false),
        e(4, "eng", "Zed", 200_000, true),
        e(5, "hr", "Carol", 90_000, false),
        e(6, "sales", "Dave", 150_000, false),
        e(7, "eng", "Amir", 100_000, true),
        e(8, "hr", "Eve", 210_000, true),
    ]
}

fn ids(mut it: BoxedRowIter<'_, '_, Employee>) -> Vec<i64> {
    let mut out = Vec::new();
    while let Some(r) = it.next() {
        out.push(r.id);
    }
    out
}

fn typed_ids<P>(mut it: RowIter<'_, Employee, P>) -> Vec<i64>
where
    P: Expr + for<'x> Eval<'x, Employee>,
    P::SqlType: for<'x> TruthValue<'x>,
{
    let mut out = Vec::new();
    while let Some(r) = it.next() {
        out.push(r.id);
    }
    out
}

fn sorted_ids(mut it: SortedRows<'_, Employee>) -> Vec<i64> {
    let mut out = Vec::new();
    while let Some(r) = it.next() {
        out.push(r.id);
    }
    out
}

#[test]
fn six_clauses_byte_identical_and_agree() {
    let rows = corpus();
    let typed = || {
        query::<Employee>()
            .filter(eq(Dept, "eng"))
            .filter(GtEq::new(Salary, 100_000i64))
            .filter(eq(Active, true))
            .filter(Like::new(Name, "A%"))
            .filter(Lt::new(Id, 100i64))
    };
    let erased = query::<Employee>()
        .into_boxed()
        .filter(eq(Dept, "eng"))
        .filter(GtEq::new(Salary, 100_000i64))
        .filter(eq(Active, true))
        .filter(Like::new(Name, "A%"))
        .filter(Lt::new(Id, 100i64));
    assert_eq!(typed().to_sql(), erased.to_sql());
    assert_eq!(typed_ids(typed().to_memory(&rows)), ids(erased.to_memory(&rows)));
    assert_eq!(ids(erased.to_memory(&rows)), [1, 7]);
}

#[test]
fn partial_erasure_regrouping_is_still_byte_identical() {
    for split in 0..=5usize {
        let typed = query::<Employee>()
            .filter(GtEq::new(Id, 1i64))
            .filter(LtEq::new(Id, 8i64))
            .filter(Gt::new(Salary, 1i64))
            .filter(NotEq::new(Name, "nobody"))
            .filter(NotEq::new(Dept, "void"))
            .to_sql();
        let erased: BoxedRows<'static, Employee> = match split {
            0 => query::<Employee>()
                .into_boxed()
                .filter(GtEq::new(Id, 1i64))
                .filter(LtEq::new(Id, 8i64))
                .filter(Gt::new(Salary, 1i64))
                .filter(NotEq::new(Name, "nobody"))
                .filter(NotEq::new(Dept, "void")),
            1 => query::<Employee>()
                .filter(GtEq::new(Id, 1i64))
                .into_boxed()
                .filter(LtEq::new(Id, 8i64))
                .filter(Gt::new(Salary, 1i64))
                .filter(NotEq::new(Name, "nobody"))
                .filter(NotEq::new(Dept, "void")),
            2 => query::<Employee>()
                .filter(GtEq::new(Id, 1i64))
                .filter(LtEq::new(Id, 8i64))
                .into_boxed()
                .filter(Gt::new(Salary, 1i64))
                .filter(NotEq::new(Name, "nobody"))
                .filter(NotEq::new(Dept, "void")),
            3 => query::<Employee>()
                .filter(GtEq::new(Id, 1i64))
                .filter(LtEq::new(Id, 8i64))
                .filter(Gt::new(Salary, 1i64))
                .into_boxed()
                .filter(NotEq::new(Name, "nobody"))
                .filter(NotEq::new(Dept, "void")),
            4 => query::<Employee>()
                .filter(GtEq::new(Id, 1i64))
                .filter(LtEq::new(Id, 8i64))
                .filter(Gt::new(Salary, 1i64))
                .filter(NotEq::new(Name, "nobody"))
                .into_boxed()
                .filter(NotEq::new(Dept, "void")),
            _ => query::<Employee>()
                .filter(GtEq::new(Id, 1i64))
                .filter(LtEq::new(Id, 8i64))
                .filter(Gt::new(Salary, 1i64))
                .filter(NotEq::new(Name, "nobody"))
                .filter(NotEq::new(Dept, "void"))
                .into_boxed(),
        };
        assert_eq!(typed, erased.to_sql(), "split at {split}");
    }
}

type Level<P> = And<GtEq<Id, i64>, Or<linq_rs::expr::Eq<Dept, &'static str>, P>>;

/// One `a AND (b OR <inner>)` level.
fn level<P: Expr>(inner: P) -> Level<P> {
    And::new(GtEq::new(Id, 0i64), Or::new(eq(Dept, "eng"), inner))
}

#[test]
fn deeply_nested_and_or_survives_erasure() {
    let rows = corpus();
    let typed = query::<Employee>().filter(level(level(level(level(level(level(level(level(level(level(level(level(level(level(level(level(level(level(level(level(level(level(level(level(GtEq::new(Id, 0i64))))))))))))))))))))))))));
    let sql_typed = typed.to_sql();
    let mem_typed = typed_ids(typed.to_memory(&rows));

    let erased = query::<Employee>().into_boxed().filter(level(level(level(level(level(level(level(level(level(level(level(level(level(level(level(level(level(level(level(level(level(level(level(level(GtEq::new(Id, 0i64))))))))))))))))))))))))));
    assert_eq!(sql_typed, erased.to_sql());
    assert_eq!(mem_typed, ids(erased.to_memory(&rows)));
    assert_eq!(mem_typed, [1, 2, 3, 4, 5, 6, 7, 8]);
}

#[test]
fn nested_or_at_top_of_a_flat_clause_list() {
    let rows = corpus();
    let typed = || {
        query::<Employee>()
            .filter(Or::new(eq(Dept, "eng"), eq(Dept, "hr")))
            .filter(not(eq(Active, false)))
            .filter(Or::new(Gt::new(Salary, 150_000i64), Like::new(Name, "A_i%")))
    };
    let erased = query::<Employee>()
        .into_boxed()
        .filter(Or::new(eq(Dept, "eng"), eq(Dept, "hr")))
        .filter(not(eq(Active, false)))
        .filter(Or::new(Gt::new(Salary, 150_000i64), Like::new(Name, "A_i%")));
    assert_eq!(typed().to_sql(), erased.to_sql());
    assert_eq!(typed_ids(typed().to_memory(&rows)), ids(erased.to_memory(&rows)));
    assert_eq!(ids(erased.to_memory(&rows)), [1, 4, 7, 8]);
}

#[test]
fn empty_predicate_set() {
    let rows = corpus();
    let q: BoxedRows<'static, Employee> = query::<Employee>().into_boxed();
    assert_eq!(q.to_sql().sql, "SELECT * FROM employees");
    assert!(q.to_sql().params.is_empty());
    assert_eq!(ids(q.to_memory(&rows)).len(), 8);
    assert!(q.to_memory(&rows).is_streaming());
}

#[test]
fn empty_predicate_set_with_order_limit_offset() {
    let rows = corpus();
    let typed = query::<Employee>().order_by_desc(Salary).limit(3).offset(1);
    let erased = query::<Employee>().into_boxed().order_by_desc(Salary).limit(3).offset(1);
    assert_eq!(typed.to_sql(), erased.to_sql());
    assert_eq!(erased.to_sql().sql, "SELECT * FROM employees ORDER BY salary DESC LIMIT 3 OFFSET 1");
    assert_eq!(sorted_ids(typed.to_memory_sorted(&rows)), ids(erased.to_memory(&rows)));
    assert!(!erased.to_memory(&rows).is_streaming());
}

#[test]
fn empty_source_and_empty_predicates() {
    let rows: Vec<Employee> = Vec::new();
    let q: BoxedRows<'static, Employee> = query::<Employee>().into_boxed();
    assert_eq!(ids(q.to_memory(&rows)), Vec::<i64>::new());
    let q = query::<Employee>().into_boxed().order_by(Id);
    assert_eq!(ids(q.to_memory(&rows)), Vec::<i64>::new());
}

#[test]
fn typed_and_erased_side_by_side() {
    let rows = corpus();
    let t = || query::<Employee>().filter(eq(Dept, "eng")).filter(Gt::new(Salary, 100_000i64));
    assert_eq!(t().to_sql().sql, "SELECT * FROM employees WHERE ((dept = ?) AND (salary > ?))");
    assert_eq!(typed_ids(t().to_memory(&rows)), [1, 4]);

    let t2 = query::<Employee>().filter(eq(Active, true)).order_by_desc(Salary).limit(2);
    assert_eq!(sorted_ids(t2.to_memory_sorted(&rows)), [8, 4]);

    let b = query::<Employee>()
        .into_boxed()
        .filter(And::new(Gt::new(Salary, 100_000i64), eq(Dept, "eng")));
    assert_eq!(ids(b.to_memory(&rows)), [1, 4]);
    assert_eq!(b.to_sql().sql, "SELECT * FROM employees WHERE ((salary > ?) AND (dept = ?))");
}

struct Report {
    title: &'static str,
    query: BoxedRows<'static, Employee>,
}

fn recent_hires(min_id: i64, dept: Option<&str>) -> BoxedRows<'static, Employee> {
    let mut q = query::<Employee>().into_boxed().filter(GtEq::new(Id, min_id));
    if let Some(d) = dept {
        q = q.filter(eq(Dept, d.to_string()));
    }
    q
}

#[test]
fn stored_query_runs_more_than_once() {
    let rows = corpus();
    let r = Report {
        title: "well-paid engineers",
        query: query::<Employee>()
            .into_boxed()
            .filter(eq(Dept, "eng"))
            .filter(Gt::new(Salary, 100_000i64))
            .order_by(Id),
    };
    assert_eq!(r.title, "well-paid engineers");
    assert_eq!(ids(r.query.to_memory(&rows)), [1, 4]);
    assert_eq!(ids(r.query.to_memory(&rows)), [1, 4]);
    assert_eq!(r.query.to_sql(), r.query.to_sql());
    assert_eq!(r.query.to_sql().sql, "SELECT * FROM employees WHERE ((dept = ?) AND (salary > ?)) ORDER BY id");
}

#[test]
fn vec_of_queries_through_both_interpreters() {
    let rows = corpus();
    let queries: Vec<BoxedRows<'static, Employee>> = vec![
        query::<Employee>().into_boxed(),
        query::<Employee>().into_boxed().filter(eq(Dept, "eng")),
        query::<Employee>().into_boxed().filter(Gt::new(Salary, 150_000i64)).order_by_desc(Salary),
        recent_hires(7, None),
    ];
    let mem: Vec<Vec<i64>> = queries.iter().map(|q| ids(q.to_memory(&rows))).collect();
    assert_eq!(mem, vec![vec![1, 2, 3, 4, 5, 6, 7, 8], vec![1, 3, 4, 7], vec![8, 4, 1], vec![7, 8]]);
    let sql: Vec<String> = queries.iter().map(|q| q.to_sql().sql).collect();
    assert_eq!(sql[2], "SELECT * FROM employees WHERE (salary > ?) ORDER BY salary DESC");
}

#[test]
fn conditional_filters_in_a_loop() {
    struct Search {
        dept: Option<&'static str>,
        min_salary: Option<i64>,
        active_only: bool,
        name_prefix: Option<String>,
    }
    fn build(s: &Search) -> BoxedRows<'static, Employee> {
        let mut q = query::<Employee>().into_boxed();
        if let Some(d) = s.dept {
            q = q.filter(eq(Dept, d));
        }
        if let Some(m) = s.min_salary {
            q = q.filter(GtEq::new(Salary, m));
        }
        if s.active_only {
            q = q.filter(eq(Active, true));
        }
        if let Some(p) = &s.name_prefix {
            q = q.filter(Like::new(Name, format!("{}%", p)));
        }
        q
    }
    let rows = corpus();

    let all = build(&Search { dept: Some("eng"), min_salary: Some(100_000), active_only: true, name_prefix: Some("A".into()) });
    let (sql, params) = (all.to_sql().sql, all.to_sql().params);
    assert_eq!(sql, "SELECT * FROM employees WHERE ((((dept = ?) AND (salary >= ?)) AND (active = ?)) AND (name LIKE ?))");
    assert_eq!(
        params,
        vec![
            SqlValue::Text("eng".into()),
            SqlValue::Integer(100_000),
            SqlValue::Boolean(true),
            SqlValue::Text("A%".into())
        ]
    );
    assert_eq!(ids(all.to_memory(&rows)), [1, 7]);

    let none = build(&Search { dept: None, min_salary: None, active_only: false, name_prefix: None });
    assert_eq!(none.to_sql().sql, "SELECT * FROM employees");
    assert_eq!(ids(none.to_memory(&rows)).len(), 8);
}

#[test]
fn multi_key_order_matches_typed() {
    let rows = corpus();
    let typed = query::<Employee>().order_by(Dept).order_by_desc(Salary).order_by(Id);
    let erased = query::<Employee>().into_boxed().order_by(Dept).order_by_desc(Salary).order_by(Id);
    assert_eq!(typed.to_sql(), erased.to_sql());
    assert_eq!(erased.to_sql().sql, "SELECT * FROM employees ORDER BY dept, salary DESC, id");
    let expected = ids(erased.to_memory(&rows));
    assert_eq!(sorted_ids(typed.to_memory_sorted(&rows)), expected);
    assert_eq!(expected, [4, 1, 3, 7, 8, 5, 2, 6]);
}

#[test]
fn limit_offset_edges() {
    let rows = corpus();
    for (lim, off) in [
        (None, None),
        (Some(0), None),
        (None, Some(0)),
        (Some(3), Some(2)),
        (Some(100), Some(0)),
        (Some(1), Some(7)),
        (Some(1), Some(8)),
        (Some(2), Some(99)),
        (None, Some(6)),
    ] {
        let mut t = query::<Employee>().filter(GtEq::new(Id, 1i64));
        let mut b = query::<Employee>().into_boxed().filter(GtEq::new(Id, 1i64));
        if let Some(l) = lim {
            t = t.limit(l);
            b = b.limit(l);
        }
        if let Some(o) = off {
            t = t.offset(o);
            b = b.offset(o);
        }
        assert_eq!(t.to_sql(), b.to_sql(), "sql for lim={lim:?} off={off:?}");
        assert_eq!(typed_ids(t.to_memory(&rows)), ids(b.to_memory(&rows)), "mem for lim={lim:?} off={off:?}");

        let mut t = query::<Employee>().filter(GtEq::new(Id, 1i64)).order_by_desc(Id);
        let mut b = query::<Employee>().into_boxed().filter(GtEq::new(Id, 1i64)).order_by_desc(Id);
        if let Some(l) = lim {
            t = t.limit(l);
            b = b.limit(l);
        }
        if let Some(o) = off {
            t = t.offset(o);
            b = b.offset(o);
        }
        assert_eq!(t.to_sql(), b.to_sql(), "sorted sql for lim={lim:?} off={off:?}");
        assert_eq!(sorted_ids(t.to_memory_sorted(&rows)), ids(b.to_memory(&rows)), "sorted mem for lim={lim:?} off={off:?}");
    }
}

#[test]
fn is_streaming_tracks_order_by() {
    let rows = corpus();
    for sort in [false, true] {
        let mut q = query::<Employee>().into_boxed().filter(eq(Active, true));
        if sort {
            q = q.order_by_desc(Salary);
        }
        assert_eq!(q.to_memory(&rows).is_streaming(), !sort);
        assert_eq!(q.to_sql().sql.contains("ORDER BY salary DESC"), sort);
    }
}

#[test]
fn query_outlives_the_data() {
    let q = query::<Employee>().into_boxed().filter(eq(Dept, "eng"));
    {
        let rows = corpus();
        assert_eq!(ids(q.to_memory(&rows)), [1, 3, 4, 7]);
    }
    let rows2 = corpus();
    assert_eq!(ids(q.to_memory(&rows2)), [1, 3, 4, 7]);
}

#[test]
fn data_outlives_the_query() {
    let rows = corpus();
    let out = {
        let q = query::<Employee>().into_boxed().filter(eq(Dept, "hr"));
        ids(q.to_memory(&rows))
    };
    assert_eq!(out, [5, 8]);
}

#[test]
fn yielded_rows_outlive_the_query() {
    let rows = corpus();
    let kept: Vec<&Employee> = {
        let q = query::<Employee>().into_boxed().filter(eq(Dept, "hr"));
        let mut it = q.to_memory(&rows);
        let mut v = Vec::new();
        while let Some(r) = it.next() {
            v.push(r);
        }
        v
    };
    assert_eq!(kept.iter().map(|r| r.id).collect::<Vec<_>>(), [5, 8]);
}

#[test]
fn owned_string_predicate_via_to_string() {
    let rows = corpus();
    let owned = String::from("eng");
    fn in_dept(dept: &str) -> BoxedRows<'static, Employee> {
        query::<Employee>().into_boxed().filter(eq(Dept, dept.to_string()))
    }
    assert_eq!(ids(in_dept(&owned).to_memory(&rows)), [1, 3, 4, 7]);
}

pub struct BorrowedStaff<'d> {
    pub id: i64,
    pub name: &'d str,
}

pub struct Staff;

impl Table for Staff {
    fn name() -> &'static str {
        "staff"
    }
    fn columns() -> &'static str {
        "*"
    }
}

impl<'d> Entity for BorrowedStaff<'d> {
    type Table = Staff;
}

#[derive(Clone, Copy)]
pub struct StaffName;

impl Expr for StaffName {
    type SqlType = Text;
    fn write_to(&self, sql: &mut String, _params: &mut Vec<SqlValue>) {
        sql.push_str("name");
    }
}
impl<'r, 'd> Eval<'r, BorrowedStaff<'d>> for StaffName {
    fn eval(&'r self, row: &'r BorrowedStaff<'d>) -> &'r str {
        row.name
    }
}

fn borrowed_rows(backing: &[String]) -> Vec<BorrowedStaff<'_>> {
    let mut out = Vec::new();
    let mut id: i64 = 1;
    for s in backing {
        out.push(BorrowedStaff { id, name: s.as_str() });
        id += 1;
    }
    out
}

#[test]
fn row_type_with_borrowed_columns_typed_path() {
    let backing: Vec<String> = vec!["Ann".into(), "Bob".into(), "Amir".into()];
    let rows = borrowed_rows(&backing);
    let q = query::<BorrowedStaff>().filter(Like::new(StaffName, "A%"));
    let mut it = q.to_memory(&rows);
    let mut got: Vec<i64> = Vec::new();
    while let Some(r) = it.next() {
        got.push(r.id);
    }
    assert_eq!(got, [1, 3]);
}

#[test]
fn row_type_with_borrowed_columns_erased_path() {
    let backing: Vec<String> = vec!["Ann".into(), "Bob".into(), "Amir".into()];
    let rows = borrowed_rows(&backing);
    let q: BoxedRows<'_, BorrowedStaff<'_>> = query::<BorrowedStaff>().into_boxed().filter(Like::new(StaffName, "A%"));
    let mut it = q.to_memory(&rows);
    let mut got: Vec<i64> = Vec::new();
    while let Some(r) = it.next() {
        got.push(r.id);
    }
    assert_eq!(got, [1, 3]);
    assert_eq!(q.to_sql().sql, "SELECT * FROM staff WHERE (name LIKE ?)");
}

impl BelongsTo<Employees> for Active {}
impl BelongsTo<Employees> for Dept {}
impl BelongsTo<Employees> for Id {}
impl BelongsTo<Employees> for Name {}
impl BelongsTo<Employees> for Salary {}
impl BelongsTo<Staff> for StaffName {}
