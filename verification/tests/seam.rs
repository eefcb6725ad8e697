use linq_rs::eval::Eval;
use linq_rs::expr::{Expr, Gt, GtEq, Like, Lt};
use linq_rs::rows::{query, Entity, RowIter};
use linq_rs::sql_types::{Boolean, Integer, Text};
use linq_rs::statement::Table;
use linq_rs::tri::TruthValue;
use linq_rs::value::SqlValue;
use linq_rs::stream::RowStream;
use linq_rs::LinqExt;
use std::cell::Cell;
use linq_rs::expr::BelongsTo;

#[derive(Debug, PartialEq)]
pub struct Employee {
    pub id: i64,
    pub name: String,
    pub dept: String,
    pub salary: i64,
    pub remote: bool,
}

pub struct Employees;

impl Entity for Employee {
    type Table = Employees;
}

impl Table for Employees {
    fn name() -> &'static str {
        "employees"
    }
    fn columns() -> &'static str {
        "*"
    }
}

#[derive(Clone, Copy)]
pub struct Name;
#[derive(Clone, Copy)]
pub struct Dept;
#[derive(Clone, Copy)]
pub struct Salary;
#[derive(Clone, Copy)]
pub struct Remote;

impl Expr for Name {
    type SqlType = Text;
    fn write_to(&self, sql: &mut String, _params: &mut Vec<SqlValue>) {
        sql.push_str("name");
    }
}
impl<'r> Eval<'r, Employee> for Name {
    fn eval(&'r self, row: &'r Employee) -> &'r str {
        &row.name
    }
}
impl Expr for Dept {
    type SqlType = Text;
    fn write_to(&self, sql: &mut String, _params: &mut Vec<SqlValue>) {
        sql.push_str("dept");
    }
}
impl<'r> Eval<'r, Employee> for Dept {
    fn eval(&'r self, row: &'r Employee) -> &'r str {
        &row.dept
    }
}
impl Expr for Salary {
    type SqlType = Integer;
    fn write_to(&self, sql: &mut String, _params: &mut Vec<SqlValue>) {
        sql.push_str("salary");
    }
}
impl<'r> Eval<'r, Employee> for Salary {
    fn eval(&'r self, row: &'r Employee) -> i64 {
        row.salary
    }
}
impl Expr for Remote {
    type SqlType = Boolean;
    fn write_to(&self, sql: &mut String, _params: &mut Vec<SqlValue>) {
        sql.push_str("remote");
    }
}
impl<'r> Eval<'r, Employee> for Remote {
    fn eval(&'r self, row: &'r Employee) -> bool {
        row.remote
    }
}

fn eq<L, R>(l: L, r: R) -> linq_rs::expr::Eq<L, R> {
    linq_rs::expr::Eq::new(l, r)
}

fn staff() -> Vec<Employee> {
    fn e(id: i64, name: &str, dept: &str, salary: i64, remote: bool) -> Employee {
        Employee { id, name: name.into(), dept: dept.into(), salary, remote }
    }
    vec![
        e(1, "Ada", "eng", 180_000, true),
        e(2, "Brent", "sales", 90_000, false),
        e(3, "Cora", "eng", 150_000, false),
        e(4, "Dev", "eng", 210_000, true),
        e(5, "Eve", "sales", 120_000, true),
    ]
}

fn collect<'a, P>(mut it: RowIter<'a, Employee, P>) -> Vec<&'a Employee>
where
    P: Expr + for<'x> Eval<'x, Employee>,
    P::SqlType: for<'x> TruthValue<'x>,
{
    let mut out = Vec::new();
    while let Some(e) = it.next() {
        out.push(e);
    }
    out
}

#[test]
fn one_value_two_interpreters() {
    let people = staff();
    let q = query::<Employee>()
        .filter(Gt::new(Salary, 100_000i64))
        .filter(eq(Dept, "eng"))
        .order_by(Dept)
        .order_by_desc(Salary)
        .limit(2);
    assert_eq!(
        q.to_sql().sql,
        "SELECT * FROM employees WHERE ((salary > ?) AND (dept = ?)) ORDER BY dept, salary DESC LIMIT 2"
    );
    let mut it = q.to_memory_sorted(&people);
    let mut ids: Vec<i64> = Vec::new();
    while let Some(e) = it.next() {
        ids.push(e.id);
    }
    assert_eq!(ids, [4, 1]);
}

#[test]
fn to_memory_restores_the_full_surface() {
    let people = staff();
    let kept = collect(query::<Employee>().filter(GtEq::new(Salary, 120_000i64)).to_memory(&people));
    let mut out: Vec<String> = kept
        .group_by_key(|e: &&Employee| e.dept.clone())
        .select(|g| format!("{}={}", g.key(), g.elements().len()));
    out.sort();
    assert_eq!(out, ["eng=3", "sales=1"]);
}

#[test]
fn like_translates_and_evaluates() {
    let people = staff();
    let q = || query::<Employee>().filter(Like::new(Name, "%e%"));
    assert_eq!(q().to_sql().sql, "SELECT * FROM employees WHERE (name LIKE ?)");
    let names: Vec<&str> = collect(q().to_memory(&people)).iter().map(|e| e.name.as_str()).collect();
    assert_eq!(names, ["Brent", "Dev", "Eve"]);
}

#[test]
fn text_predicates_borrow_from_the_row() {
    let people = staff();
    let n = collect(query::<Employee>().filter(Lt::new(Dept, "f")).to_memory(&people)).len();
    assert_eq!(n, 3);
}

#[test]
fn offset_and_limit_agree_across_interpreters() {
    let people = staff();
    let q = query::<Employee>().filter(Gt::new(Salary, 0i64)).offset(1).limit(2);
    assert_eq!(q.to_sql().sql, "SELECT * FROM employees WHERE (salary > ?) LIMIT 2 OFFSET 1");
    let ids: Vec<i64> = collect(q.to_memory(&people)).iter().map(|e| e.id).collect();
    assert_eq!(ids, [2, 3]);
}

#[test]
fn slice_scan_with_limit_examines_only_what_it_yields() {
    let people = staff();
    let mut it = query::<Employee>().filter(eq(Remote, true)).limit(1).to_memory(&people);
    let mut got: Vec<i64> = Vec::new();
    while let Some(e) = it.next() {
        got.push(e.id);
    }
    assert_eq!(got, [1]);
    assert_eq!(it.examined(), 1);
}

#[test]
fn slice_scan_examines_rows_one_at_a_time() {
    let people = staff();
    let mut it = query::<Employee>().filter(eq(Dept, "sales")).to_memory(&people);
    assert_eq!(it.examined(), 0);
    assert_eq!(it.next().map(|e| e.id), Some(2));
    assert_eq!(it.examined(), 2);
}

/// Any iterator of borrowed rows, as a row source.
struct Source<I>(I);

impl<'a, I: Iterator<Item = &'a Employee>> RowStream<'a, Employee> for Source<I> {
    fn pull(&mut self) -> Option<&'a Employee> {
        self.0.next()
    }
}

#[test]
fn to_memory_streams_and_stops_early() {
    let people = staff();
    let pulled = Cell::new(0usize);
    let counted = people.iter().inspect(|_| pulled.set(pulled.get() + 1));

    let mut it = query::<Employee>().filter(eq(Remote, true)).limit(1).to_memory_stream(Source(counted));
    let mut got: Vec<i64> = Vec::new();
    while let Some(e) = it.next() {
        got.push(e.id);
    }

    assert_eq!(got, [1]);
    assert_eq!(pulled.get(), 1);
}

#[test]
fn to_memory_is_lazy_per_element() {
    let people = staff();
    let pulled = Cell::new(0usize);
    let counted = people.iter().inspect(|_| pulled.set(pulled.get() + 1));

    let mut it = query::<Employee>().filter(eq(Dept, "sales")).to_memory_stream(Source(counted));

    assert_eq!(pulled.get(), 0);
    assert_eq!(it.next().map(|e| e.id), Some(2));
    assert_eq!(pulled.get(), 2);
}

impl BelongsTo<Employees> for Dept {}
impl BelongsTo<Employees> for Name {}
impl BelongsTo<Employees> for Remote {}
impl BelongsTo<Employees> for Salary {}
