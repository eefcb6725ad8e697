use linq_rs::boxed::{boxed_query, write_conjunction, BoxedRows, Clause};
use linq_rs::eval::Eval;
use linq_rs::expr::{not, And, Expr, Gt, GtEq, IsNull, Like, Lt, Or};
use linq_rs::rows::{query, Entity};
use linq_rs::sql_types::{Boolean, Integer, Nullable, Text};
use linq_rs::value::SqlValue;
use linq_rs::expr::BelongsTo;

pub struct Employee {
    pub id: i64,
    pub name: String,
    pub dept: String,
    pub salary: i64,
    pub active: bool,
    pub nick: Option<String>,
}

pub struct EmployeesTable;

impl Entity for Employee {
    type Table = EmployeesTable;
}

#[derive(Clone, Copy)]
pub struct Id;
#[derive(Clone, Copy)]
pub struct Name;
#[derive(Clone, Copy)]
pub struct Dept;
#[derive(Clone, Copy)]
pub struct Salary;
#[derive(Clone, Copy)]
pub struct Active;
#[derive(Clone, Copy)]
pub struct Nick;

impl Expr for Id {
    type SqlType = Integer;
    fn write_to(&self, sql: &mut String, _params: &mut Vec<SqlValue>) {
        sql.push_str("id");
    }
}
impl<'r> Eval<'r, Employee> for Id {
    fn eval(&'r self, row: &'r Employee) -> i64 {
        row.id
    }
}

impl Expr for Name {
    type SqlType = Text;
    fn write_to(&self, sql: &mut String, _params: &mut Vec<SqlValue>) {
        sql.push_str("name");
    }
}
impl<'r> Eval<'r, Employee> for Name {
    fn eval(&'r self, row: &'r Employee) -> &'r str {
        &row.name
    }
}

impl Expr for Dept {
    type SqlType = Text;
    fn write_to(&self, sql: &mut String, _params: &mut Vec<SqlValue>) {
        sql.push_str("dept");
    }
}
impl<'r> Eval<'r, Employee> for Dept {
    fn eval(&'r self, row: &'r Employee) -> &'r str {
        &row.dept
    }
}

impl Expr for Salary {
    type SqlType = Integer;
    fn write_to(&self, sql: &mut String, _params: &mut Vec<SqlValue>) {
        sql.push_str("salary");
    }
}
impl<'r> Eval<'r, Employee> for Salary {
    fn eval(&'r self, row: &'r Employee) -> i64 {
        row.salary
    }
}

impl Expr for Active {
    type SqlType = Boolean;
    fn write_to(&self, sql: &mut String, _params: &mut Vec<SqlValue>) {
        sql.push_str("active");
    }
}
impl<'r> Eval<'r, Employee> for Active {
    fn eval(&'r self, row: &'r Employee) -> bool {
        row.active
    }
}

impl Expr for Nick {
    type SqlType = Nullable<Text>;
    fn write_to(&self, sql: &mut String, _params: &mut Vec<SqlValue>) {
        sql.push_str("nick");
    }
}
impl<'r> Eval<'r, Employee> for Nick {
    fn eval(&'r self, row: &'r Employee) -> Option<&'r str> {
        row.nick.as_deref()
    }
}

fn emp(id: i64, name: &str, dept: &str, salary: i64, active: bool, nick: Option<&str>) -> Employee {
    Employee {
        id,
        name: name.to_string(),
        dept: dept.to_string(),
        salary,
        active,
        nick: nick.map(|s| s.to_string()),
    }
}

fn staff() -> Vec<Employee> {
    vec![
        emp(1, "Ada", "eng", 180_000, true, Some("ace")),
        emp(2, "Bo", "sales", 190_000, true, None),
        emp(3, "Cy", "eng", 90_000, false, None),
        emp(4, "Di", "eng", 210_000, true, Some("dee")),
        emp(5, "Ed", "ops", 120_000, true, None),
    ]
}

fn drain_ids<'a>(mut next: impl FnMut() -> Option<&'a Employee>) -> Vec<i64> {
    let mut out = Vec::new();
    while let Some(e) = next() {
        out.push(e.id);
    }
    out
}

fn boxed_ids(q: &BoxedRows<'static, Employee>, rows: &[Employee]) -> Vec<i64> {
    let mut it = q.to_memory(rows);
    let mut out = Vec::new();
    while let Some(e) = it.next() {
        out.push(e.id);
    }
    out
}

#[test]
fn unfiltered_query_streams_every_row_in_order() {
    let rows = staff();
    let mut it = query::<Employee>().to_memory(&rows);
    assert_eq!(drain_ids(|| it.next()), vec![1, 2, 3, 4, 5]);
}

#[test]
fn filter_keeps_only_rows_where_the_predicate_is_true() {
    let rows = staff();
    let mut it = query::<Employee>().filter(linq_rs::expr::Eq::new(Dept, "eng")).to_memory(&rows);
    assert_eq!(drain_ids(|| it.next()), vec![1, 3, 4]);
}

#[test]
fn filters_accumulate_with_and() {
    let rows = staff();
    let mut it = query::<Employee>()
        .filter(linq_rs::expr::Eq::new(Dept, "eng"))
        .filter(linq_rs::expr::Eq::new(Active, true))
        .to_memory(&rows);
    assert_eq!(drain_ids(|| it.next()), vec![1, 4]);
}

#[test]
fn offset_then_limit_window_the_kept_rows() {
    let rows = staff();
    let mut it = query::<Employee>().filter(linq_rs::expr::Eq::new(Active, true)).offset(1).limit(2).to_memory(&rows);
    assert_eq!(drain_ids(|| it.next()), vec![2, 4]);
    // Once exhausted it stays exhausted.
    assert!(it.next().is_none());
}

#[test]
fn limit_zero_yields_nothing_and_offset_past_the_end_yields_nothing() {
    let rows = staff();
    let mut it = query::<Employee>().limit(0).to_memory(&rows);
    assert!(it.next().is_none());
    let mut it = query::<Employee>().offset(10).to_memory(&rows);
    assert!(it.next().is_none());
}

#[test]
fn comparison_operators_evaluate_in_memory() {
    let rows = staff();
    let mut it = query::<Employee>().filter(Gt::new(Salary, 150_000i64)).to_memory(&rows);
    assert_eq!(drain_ids(|| it.next()), vec![1, 2, 4]);
    let mut it = query::<Employee>().filter(Lt::new(Salary, 120_000i64)).to_memory(&rows);
    assert_eq!(drain_ids(|| it.next()), vec![3]);
    let mut it = query::<Employee>().filter(GtEq::new(Salary, 120_000i64)).to_memory(&rows);
    assert_eq!(drain_ids(|| it.next()), vec![1, 2, 4, 5]);
}

#[test]
fn logical_nodes_like_and_is_null_evaluate_in_memory() {
    let rows = staff();
    let mut it = query::<Employee>()
        .filter(Or::new(linq_rs::expr::Eq::new(Dept, "ops"), And::new(linq_rs::expr::Eq::new(Dept, "eng"), not(linq_rs::expr::Eq::new(Active, true)))))
        .to_memory(&rows);
    assert_eq!(drain_ids(|| it.next()), vec![3, 5]);
    let mut it = query::<Employee>().filter(Like::new(Name, "_d%")).to_memory(&rows);
    assert_eq!(drain_ids(|| it.next()), vec![1, 5]);
    let mut it = query::<Employee>().filter(IsNull::new(Nick)).to_memory(&rows);
    assert_eq!(drain_ids(|| it.next()), vec![2, 3, 5]);
}

#[test]
fn order_by_sorts_stably_and_then_windows() {
    let rows = staff();
    // Ties on dept keep the source order.
    let mut it = query::<Employee>().order_by(Dept).to_memory_sorted(&rows);
    assert_eq!(drain_ids(|| it.next()), vec![1, 3, 4, 5, 2]);
    // A second part breaks ties of the first.
    let mut it = query::<Employee>().order_by(Dept).order_by_desc(Salary).to_memory_sorted(&rows);
    assert_eq!(drain_ids(|| it.next()), vec![4, 1, 3, 5, 2]);
    // Filter, sort, then OFFSET and LIMIT.
    let mut it = query::<Employee>()
        .filter(linq_rs::expr::Eq::new(Active, true))
        .order_by_desc(Salary)
        .offset(1)
        .limit(2)
        .to_memory_sorted(&rows);
    assert_eq!(drain_ids(|| it.next()), vec![2, 1]);
}

#[test]
fn order_by_boolean_puts_false_first() {
    let rows = staff();
    let mut it = query::<Employee>().order_by(Active).to_memory_sorted(&rows);
    assert_eq!(drain_ids(|| it.next()), vec![3, 1, 2, 4, 5]);
}

#[test]
fn boxed_query_with_conditional_filters_agrees_with_typed() {
    let rows = staff();
    let mut q = boxed_query::<Employee>();
    assert_eq!(boxed_ids(&q, &rows), vec![1, 2, 3, 4, 5]);
    let want_dept = true;
    let active_only = true;
    if want_dept {
        q = q.filter(linq_rs::expr::Eq::new(Dept, "eng"));
    }
    if active_only {
        q = q.filter(linq_rs::expr::Eq::new(Active, true));
    }
    assert_eq!(boxed_ids(&q, &rows), vec![1, 4]);

    let mut typed = query::<Employee>().filter(linq_rs::expr::Eq::new(Dept, "eng")).filter(linq_rs::expr::Eq::new(Active, true)).to_memory(&rows);
    assert_eq!(drain_ids(|| typed.next()), vec![1, 4]);
}

#[test]
fn into_boxed_keeps_the_accumulated_predicate_and_window() {
    let rows = staff();
    let q: BoxedRows<'static, Employee> =
        query::<Employee>().filter(linq_rs::expr::Eq::new(Active, true)).offset(1).limit(2).into_boxed();
    assert_eq!(boxed_ids(&q, &rows), vec![2, 4]);
    let q = q.filter(linq_rs::expr::Eq::new(Dept, "eng"));
    assert_eq!(boxed_ids(&q, &rows), vec![4]);
}

#[test]
fn boxed_streams_without_order_and_materialises_with_it() {
    let rows = staff();
    let q = boxed_query::<Employee>().filter(linq_rs::expr::Eq::new(Active, true));
    let mut it = q.to_memory(&rows);
    assert!(it.is_streaming());
    assert_eq!(it.next().map(|e| e.id), Some(1));
    assert_eq!(it.next().map(|e| e.id), Some(2));
    let q = q.order_by_desc(Salary);
    let mut it = q.to_memory(&rows);
    assert!(!it.is_streaming());
    assert_eq!(it.next().map(|e| e.id), Some(4));
    assert_eq!(boxed_ids(&q, &rows), vec![4, 2, 1, 5]);
    let q = q.offset(3).limit(5);
    assert_eq!(boxed_ids(&q, &rows), vec![5]);
}

#[test]
fn conjunction_renders_nested_to_the_left_with_params_in_order() {
    let clauses: Vec<Clause<'static, Employee>> = vec![
        Clause::new(linq_rs::expr::Eq::new(Dept, "eng")),
        Clause::new(GtEq::new(Salary, 100_000i64)),
        Clause::new(linq_rs::expr::Eq::new(Active, true)),
        Clause::new(Like::new(Name, "A%")),
    ];
    let mut sql = String::new();
    let mut params = Vec::new();
    write_conjunction(&clauses, &mut sql, &mut params);
    assert_eq!(sql, "((((dept = ?) AND (salary >= ?)) AND (active = ?)) AND (name LIKE ?))");
    assert_eq!(
        params,
        vec![
            SqlValue::Text("eng".to_string()),
            SqlValue::Integer(100_000),
            SqlValue::Boolean(true),
            SqlValue::Text("A%".to_string()),
        ]
    );
    let mut sql = String::new();
    let mut params = Vec::new();
    write_conjunction(&clauses[..1], &mut sql, &mut params);
    assert_eq!(sql, "(dept = ?)");
    let mut sql = String::new();
    write_conjunction::<Employee>(&[], &mut sql, &mut params);
    assert_eq!(sql, "");
}

#[test]
fn clause_evaluates_three_valued() {
    let rows = staff();
    let c = Clause::new(linq_rs::expr::Eq::new(Dept, "eng"));
    assert_eq!(c.eval_row(&rows[0]), Some(true));
    assert_eq!(c.eval_row(&rows[1]), Some(false));
}

#[test]
fn a_hostile_value_stays_in_the_parameters() {
    let hostile = "eng'); DROP TABLE emp;--";
    let (sql, params) = query::<Employee>().filter(linq_rs::expr::Eq::new(Dept, hostile)).where_sql().unwrap();
    assert_eq!(sql, "(dept = ?)");
    assert!(!sql.contains("DROP"));
    assert_eq!(params, vec![SqlValue::Text(hostile.to_string())]);
    let (plain, _) = query::<Employee>().filter(linq_rs::expr::Eq::new(Dept, "eng")).where_sql().unwrap();
    assert_eq!(sql, plain);
}

impl BelongsTo<EmployeesTable> for Active {}
impl BelongsTo<EmployeesTable> for Dept {}
impl BelongsTo<EmployeesTable> for Id {}
impl BelongsTo<EmployeesTable> for Name {}
impl BelongsTo<EmployeesTable> for Nick {}
impl BelongsTo<EmployeesTable> for Salary {}
