use linq_rs::boxed::{boxed_query, BoxedRowIter, BoxedRows};
use linq_rs::eval::Eval;
use linq_rs::expr::{not, Expr, Gt, GtEq, Like, Or};
use linq_rs::rows::{query, Entity, RowIter, SortedRows};
use linq_rs::sql_types::{Boolean, Integer, Text};
use linq_rs::statement::Table;
use linq_rs::stream::{CycleRows, RowStream, SliceRows};
use linq_rs::tri::TruthValue;
use linq_rs::value::SqlValue;
use linq_rs::expr::BelongsTo;

#[derive(Debug)]
pub struct Employee {
    pub id: i64,
    pub name: String,
    pub dept: String,
    pub salary: i64,
    pub active: bool,
}

pub struct Employees;

impl Entity for Employee {
    type Table = Employees;
}

impl Table for Employees {
    fn name() -> &'static str {
        "employees"
    }
    fn columns() -> &'static str {
        "*"
    }
}

#[derive(Clone, Copy)]
pub struct Id;
#[derive(Clone, Copy)]
pub struct Name;
#[derive(Clone, Copy)]
pub struct Dept;
#[derive(Clone, Copy)]
pub struct Salary;
#[derive(Clone, Copy)]
pub struct Active;

impl Expr for Id {
    type SqlType = Integer;
    fn write_to(&self, sql: &mut String, _params: &mut Vec<SqlValue>) {
        sql.push_str("id");
    }
}
impl<'r> Eval<'r, Employee> for Id {
    fn eval(&'r self, row: &'r Employee) -> i64 {
        row.id
    }
}
impl Expr for Name {
    type SqlType = Text;
    fn write_to(&self, sql: &mut String, _params: &mut Vec<SqlValue>) {
        sql.push_str("name");
    }
}
impl<'r> Eval<'r, Employee> for Name {
    fn eval(&'r self, row: &'r Employee) -> &'r str {
        &row.name
    }
}
impl Expr for Dept {
    type SqlType = Text;
    fn write_to(&self, sql: &mut String, _params: &mut Vec<SqlValue>) {
        sql.push_str("dept");
    }
}
impl<'r> Eval<'r, Employee> for Dept {
    fn eval(&'r self, row: &'r Employee) -> &'r str {
        &row.dept
    }
}
impl Expr for Salary {
    type SqlType = Integer;
    fn write_to(&self, sql: &mut String, _params: &mut Vec<SqlValue>) {
        sql.push_str("salary");
    }
}
impl<'r> Eval<'r, Employee> for Salary {
    fn eval(&'r self, row: &'r Employee) -> i64 {
        row.salary
    }
}
impl Expr for Active {
    type SqlType = Boolean;
    fn write_to(&self, sql: &mut String, _params: &mut Vec<SqlValue>) {
        sql.push_str("active");
    }
}
impl<'r> Eval<'r, Employee> for Active {
    fn eval(&'r self, row: &'r Employee) -> bool {
        row.active
    }
}

fn eq<L, R>(l: L, r: R) -> linq_rs::expr::Eq<L, R> {
    linq_rs::expr::Eq::new(l, r)
}

fn staff() -> Vec<Employee> {
    vec![
        emp(1, "Ada", "eng", 180_000, true),
        emp(2, "Bo", "sales", 190_000, true),
        emp(3, "Cy", "eng", 90_000, false),
        emp(4, "Di", "eng", 210_000, true),
        emp(5, "Ed", "ops", 120_000, true),
    ]
}

fn emp(id: i64, name: &str, dept: &str, salary: i64, active: bool) -> Employee {
    Employee { id, name: name.into(), dept: dept.into(), salary, active }
}

fn ids(mut it: BoxedRowIter<'_, '_, Employee>) -> Vec<i64> {
    let mut out = Vec::new();
    while let Some(e) = it.next() {
        out.push(e.id);
    }
    out
}

fn typed_ids<P>(mut it: RowIter<'_, Employee, P>) -> Vec<i64>
where
    P: Expr + for<'x> Eval<'x, Employee>,
    P::SqlType: for<'x> TruthValue<'x>,
{
    let mut out = Vec::new();
    while let Some(e) = it.next() {
        out.push(e.id);
    }
    out
}

fn sorted_ids(mut it: SortedRows<'_, Employee>) -> Vec<i64> {
    let mut out = Vec::new();
    while let Some(e) = it.next() {
        out.push(e.id);
    }
    out
}

#[test]
fn call_site_conditional_filters_in_a_loop() {
    struct Search {
        dept: Option<&'static str>,
        min_salary: Option<i64>,
        active_only: bool,
        name_prefix: Option<String>,
    }

    fn build(s: &Search) -> BoxedRows<'static, Employee> {
        let mut q = query::<Employee>().into_boxed();
        if let Some(d) = s.dept {
            q = q.filter(eq(Dept, d));
        }
        if let Some(m) = s.min_salary {
            q = q.filter(GtEq::new(Salary, m));
        }
        if s.active_only {
            q = q.filter(eq(Active, true));
        }
        if let Some(p) = &s.name_prefix {
            q = q.filter(Like::new(Name, format!("{p}%")));
        }
        q
    }

    let none = Search { dept: None, min_salary: None, active_only: false, name_prefix: None };
    let all = Search { dept: Some("eng"), min_salary: Some(100_000), active_only: true, name_prefix: Some("A".into()) };
    let rows = staff();

    let q = build(&none);
    assert_eq!(q.to_sql().sql, "SELECT * FROM employees");
    assert_eq!(ids(q.to_memory(&rows)), [1, 2, 3, 4, 5]);

    let q = build(&all);
    let (sql, params) = (q.to_sql().sql, q.to_sql().params);
    assert_eq!(sql, "SELECT * FROM employees WHERE ((((dept = ?) AND (salary >= ?)) AND (active = ?)) AND (name LIKE ?))");
    assert_eq!(
        params,
        vec![
            SqlValue::Text("eng".into()),
            SqlValue::Integer(100_000),
            SqlValue::Boolean(true),
            SqlValue::Text("A%".into()),
        ]
    );
    assert_eq!(ids(q.to_memory(&rows)), [1]);

    let some = Search { dept: Some("eng"), min_salary: None, active_only: true, name_prefix: None };
    let q = build(&some);
    assert_eq!(ids(q.to_memory(&rows)), [1, 4]);
}

#[test]
fn call_site_conditional_order_by() {
    let rows = staff();
    for (sort, expected) in [(false, vec![1, 2, 4, 5]), (true, vec![4, 2, 1, 5])] {
        let mut q = query::<Employee>().into_boxed().filter(eq(Active, true));
        if sort {
            q = q.order_by_desc(Salary);
        }
        assert_eq!(ids(q.to_memory(&rows)), expected);
        assert_eq!(q.to_memory(&rows).is_streaming(), !sort);
        assert_eq!(q.to_sql().sql.contains("ORDER BY salary DESC"), sort);
    }
}

struct Report {
    title: &'static str,
    query: BoxedRows<'static, Employee>,
}

#[test]
fn call_site_query_in_a_struct_field() {
    let r = Report {
        title: "well-paid engineers",
        query: query::<Employee>()
            .into_boxed()
            .filter(eq(Dept, "eng"))
            .filter(Gt::new(Salary, 100_000i64))
            .order_by(Id),
    };
    let rows = staff();
    assert_eq!(r.title, "well-paid engineers");
    assert_eq!(ids(r.query.to_memory(&rows)), [1, 4]);
    assert_eq!(ids(r.query.to_memory(&rows)), [1, 4]);
    assert_eq!(r.query.to_sql().sql, "SELECT * FROM employees WHERE ((dept = ?) AND (salary > ?)) ORDER BY id");
}

fn recent_hires(min_id: i64, dept: Option<&str>) -> BoxedRows<'static, Employee> {
    let mut q = query::<Employee>().into_boxed().filter(GtEq::new(Id, min_id));
    if let Some(d) = dept {
        q = q.filter(eq(Dept, d.to_string()));
    }
    q
}

#[test]
fn call_site_return_a_query_from_a_function() {
    let rows = staff();
    assert_eq!(ids(recent_hires(3, None).to_memory(&rows)), [3, 4, 5]);
    assert_eq!(ids(recent_hires(3, Some("eng")).to_memory(&rows)), [3, 4]);
}

#[test]
fn call_site_borrowed_predicate_needs_to_string() {
    fn in_dept(dept: &str) -> BoxedRows<'static, Employee> {
        query::<Employee>().into_boxed().filter(eq(Dept, dept.to_string()))
    }
    let rows = staff();
    let owned = String::from("eng");
    let q = in_dept(&owned);
    assert_eq!(ids(q.to_memory(&rows)), [1, 3, 4]);
    assert_eq!(q.to_sql().sql, "SELECT * FROM employees WHERE (dept = ?)");
}

#[test]
fn call_site_several_queries_in_a_vec() {
    let queries: Vec<BoxedRows<'static, Employee>> = vec![
        query::<Employee>().into_boxed(),
        query::<Employee>().into_boxed().filter(eq(Dept, "eng")),
        query::<Employee>().into_boxed().filter(Gt::new(Salary, 150_000i64)).order_by_desc(Salary),
        recent_hires(4, None),
    ];
    let rows = staff();
    let results: Vec<Vec<i64>> = queries.iter().map(|q| ids(q.to_memory(&rows))).collect();
    assert_eq!(results, vec![vec![1, 2, 3, 4, 5], vec![1, 3, 4], vec![4, 2, 1], vec![4, 5]]);
    let sql: Vec<String> = queries.iter().map(|q| q.to_sql().sql).collect();
    assert_eq!(sql[0], "SELECT * FROM employees");
    assert_eq!(sql[2], "SELECT * FROM employees WHERE (salary > ?) ORDER BY salary DESC");
}

#[test]
fn call_site_typed_path_unchanged() {
    let rows = staff();
    let q = query::<Employee>().filter(eq(Dept, "eng")).filter(Gt::new(Salary, 100_000i64));
    assert_eq!(q.to_sql().sql, "SELECT * FROM employees WHERE ((dept = ?) AND (salary > ?))");
    assert_eq!(typed_ids(q.to_memory(&rows)), [1, 4]);

    let q = query::<Employee>().filter(eq(Active, true)).order_by_desc(Salary).limit(2);
    assert_eq!(sorted_ids(q.to_memory_sorted(&rows)), [4, 2]);
}

#[test]
fn erased_sql_is_byte_identical_to_typed_sql() {
    let typed = query::<Employee>()
        .filter(eq(Dept, "eng"))
        .filter(Gt::new(Salary, 100_000i64))
        .filter(Like::new(Name, "A%"))
        .order_by_desc(Salary)
        .limit(10)
        .offset(2);
    let erased = query::<Employee>()
        .into_boxed()
        .filter(eq(Dept, "eng"))
        .filter(Gt::new(Salary, 100_000i64))
        .filter(Like::new(Name, "A%"))
        .order_by_desc(Salary)
        .limit(10)
        .offset(2);
    assert_eq!(typed.to_sql(), erased.to_sql());
    assert_eq!(
        erased.to_sql().sql,
        "SELECT * FROM employees WHERE (((dept = ?) AND (salary > ?)) AND (name LIKE ?)) ORDER BY salary DESC LIMIT 10 OFFSET 2"
    );
}

#[test]
fn erased_memory_agrees_with_typed_memory() {
    let rows = staff();
    let typed = query::<Employee>().filter(eq(Dept, "eng")).filter(Gt::new(Salary, 100_000i64));
    let erased = query::<Employee>().into_boxed().filter(eq(Dept, "eng")).filter(Gt::new(Salary, 100_000i64));
    assert_eq!(typed_ids(typed.to_memory(&rows)), ids(erased.to_memory(&rows)));
}

#[test]
fn into_boxed_preserves_already_accumulated_clauses() {
    let rows = staff();
    let q = query::<Employee>().filter(eq(Dept, "eng")).limit(2).into_boxed().filter(eq(Active, true));
    assert_eq!(q.to_sql().sql, "SELECT * FROM employees WHERE ((dept = ?) AND (active = ?)) LIMIT 2");
    assert_eq!(ids(q.to_memory(&rows)), [1, 4]);
}

#[test]
fn erased_keeps_the_whole_expression_language() {
    let rows = staff();
    let q = query::<Employee>().into_boxed().filter(Or::new(eq(Dept, "eng"), Gt::new(Salary, 150_000i64)));
    assert_eq!(ids(q.to_memory(&rows)), [1, 2, 3, 4]);
    assert_eq!(q.to_sql().sql, "SELECT * FROM employees WHERE ((dept = ?) OR (salary > ?))");

    let q = query::<Employee>().into_boxed().filter(not(eq(Dept, "eng")));
    assert_eq!(ids(q.to_memory(&rows)), [2, 5]);
}

#[test]
fn erased_unordered_path_still_streams() {
    let rows = staff();
    let q = query::<Employee>().into_boxed().filter(eq(Active, true)).limit(2);
    let mut it = q.to_memory_stream(Source(rows.iter().cycle()));
    assert!(it.is_streaming());
    assert_eq!(it.next().map(|e| e.id), Some(1));
    assert_eq!(it.next().map(|e| e.id), Some(2));
    assert_eq!(it.next().map(|e| e.id), None);
}

#[test]
fn erased_slice_path_streams_with_a_limit() {
    let rows = staff();
    let q = query::<Employee>().into_boxed().filter(eq(Active, true)).limit(2);
    let mut it = q.to_memory(&rows);
    assert!(it.is_streaming());
    assert_eq!(it.next().map(|e| e.id), Some(1));
    assert_eq!(it.next().map(|e| e.id), Some(2));
    assert_eq!(it.next().map(|e| e.id), None);
}

#[test]
fn library_sources_stream_slices_and_cycles() {
    let rows = staff();
    let q = query::<Employee>().into_boxed().filter(eq(Dept, "eng")).offset(2).limit(3);
    let mut it = q.to_memory_stream(CycleRows::new(&rows));
    let mut got = Vec::new();
    while let Some(e) = it.next() {
        got.push(e.id);
    }
    assert_eq!(got, [4, 1, 3]);

    let q = query::<Employee>().into_boxed().filter(eq(Dept, "eng"));
    let mut it = q.to_memory_stream(SliceRows::new(&rows));
    let mut got = Vec::new();
    while let Some(e) = it.next() {
        got.push(e.id);
    }
    assert_eq!(got, [1, 3, 4]);

    let empty: Vec<Employee> = Vec::new();
    let mut it = q.to_memory_stream(CycleRows::new(&empty));
    assert!(it.next().is_none());
}

#[test]
fn erased_limit_and_offset_match_typed() {
    let rows = staff();
    let typed = query::<Employee>().filter(eq(Active, true)).offset(1).limit(2);
    let erased = query::<Employee>().into_boxed().filter(eq(Active, true)).offset(1).limit(2);
    assert_eq!(typed_ids(typed.to_memory(&rows)), [2, 4]);
    assert_eq!(ids(erased.to_memory(&rows)), [2, 4]);
}

#[test]
fn boxed_query_shorthand() {
    let rows = staff();
    let q = boxed_query::<Employee>().filter(Gt::new(Salary, 150_000i64));
    assert_eq!(ids(q.to_memory(&rows)), [1, 2, 4]);
}

#[test]
fn erased_streaming_examines_only_what_it_yields() {
    let rows = staff();
    let q = query::<Employee>().into_boxed().filter(eq(Dept, "eng")).offset(1).limit(1);
    let mut it = q.to_memory(&rows);
    assert_eq!(it.examined(), 0);
    assert_eq!(it.next().map(|e| e.id), Some(3));
    assert_eq!(it.examined(), 3);
    assert_eq!(it.next().map(|e| e.id), None);
    assert_eq!(it.examined(), 3);

    let sorted = query::<Employee>().into_boxed().order_by(Id);
    let it = sorted.to_memory(&rows);
    assert_eq!(it.examined(), 5);
}

/// Any iterator of borrowed rows, as a row source.
struct Source<I>(I);

impl<'a, I: Iterator<Item = &'a Employee>> RowStream<'a, Employee> for Source<I> {
    fn pull(&mut self) -> Option<&'a Employee> {
        self.0.next()
    }
}

impl BelongsTo<Employees> for Active {}
impl BelongsTo<Employees> for Dept {}
impl BelongsTo<Employees> for Id {}
impl BelongsTo<Employees> for Name {}
impl BelongsTo<Employees> for Salary {}
