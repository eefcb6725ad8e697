use linq_rs::eval::Eval;
use linq_rs::expr::{not, And, Expr, Gt, GtEq, IsNull, Like, Lit, Lt, LtEq, NotEq, Or};
use linq_rs::rows::{query, Entity};
use linq_rs::sql_types::{Boolean, Integer, Text};
use linq_rs::statement::Table;
use linq_rs::value::SqlValue;
use linq_rs::expr::BelongsTo;

pub struct User {
    pub id: i64,
    pub name: String,
    pub age: i64,
    pub active: bool,
}

pub struct Users;

impl Entity for User {
    type Table = Users;
}

impl Table for Users {
    fn name() -> &'static str {
        "users"
    }
    fn columns() -> &'static str {
        "*"
    }
}

pub struct Order {
    pub id: i64,
    pub customer_id: i64,
    pub product: String,
}

pub struct Orders;

impl Entity for Order {
    type Table = Orders;
}

impl Table for Orders {
    fn name() -> &'static str {
        "orders"
    }
    fn columns() -> &'static str {
        "*"
    }
}


#[derive(Clone, Copy)]
pub struct Age;

impl Expr for Age {
    type SqlType = Integer;
    fn write_to(&self, sql: &mut String, _params: &mut Vec<SqlValue>) {
        sql.push_str("age");
    }
}

impl<'r> Eval<'r, User> for Age {
    fn eval(&'r self, row: &'r User) -> i64 {
        row.age
    }
}

#[derive(Clone, Copy)]
pub struct Name;

impl Expr for Name {
    type SqlType = Text;
    fn write_to(&self, sql: &mut String, _params: &mut Vec<SqlValue>) {
        sql.push_str("name");
    }
}

impl<'r> Eval<'r, User> for Name {
    fn eval(&'r self, row: &'r User) -> &'r str {
        &row.name
    }
}

#[derive(Clone, Copy)]
pub struct Active;

impl Expr for Active {
    type SqlType = Boolean;
    fn write_to(&self, sql: &mut String, _params: &mut Vec<SqlValue>) {
        sql.push_str("active");
    }
}

impl<'r> Eval<'r, User> for Active {
    fn eval(&'r self, row: &'r User) -> bool {
        row.active
    }
}

#[derive(Clone, Copy)]
pub struct CustomerId;

impl Expr for CustomerId {
    type SqlType = Integer;
    fn write_to(&self, sql: &mut String, _params: &mut Vec<SqlValue>) {
        sql.push_str("customer_id");
    }
}

impl<'r> Eval<'r, Order> for CustomerId {
    fn eval(&'r self, row: &'r Order) -> i64 {
        row.customer_id
    }
}

fn eq<L, R>(l: L, r: R) -> linq_rs::expr::Eq<L, R> {
    linq_rs::expr::Eq::new(l, r)
}

#[test]
fn select_star() {
    let q = query::<User>().to_sql();
    assert_eq!(q.sql, "SELECT * FROM users");
    assert!(q.params.is_empty());
}

#[test]
fn where_integer_gt() {
    let q = query::<User>().filter(Gt::new(Age, 18)).to_sql();
    assert_eq!(q.sql, "SELECT * FROM users WHERE (age > ?)");
    assert_eq!(q.params, vec![SqlValue::Integer(18)]);
}

#[test]
fn where_integer_full_range_of_comparisons() {
    for (op, expected) in [
        ("eq", "(age = ?)"),
        ("ne", "(age != ?)"),
        ("lt", "(age < ?)"),
        ("lte", "(age <= ?)"),
        ("gt", "(age > ?)"),
        ("gte", "(age >= ?)"),
    ] {
        let q = match op {
            "eq" => query::<User>().filter(eq(Age, 18)).to_sql(),
            "ne" => query::<User>().filter(NotEq::new(Age, 18)).to_sql(),
            "lt" => query::<User>().filter(Lt::new(Age, 18)).to_sql(),
            "lte" => query::<User>().filter(LtEq::new(Age, 18)).to_sql(),
            "gt" => query::<User>().filter(Gt::new(Age, 18)).to_sql(),
            _ => query::<User>().filter(GtEq::new(Age, 18)).to_sql(),
        };
        assert_eq!(q.sql, format!("SELECT * FROM users WHERE {expected}"));
        assert_eq!(q.params, vec![SqlValue::Integer(18)]);
    }
}

#[test]
fn where_text_eq() {
    let q = query::<User>().filter(eq(Name, "Alice")).to_sql();
    assert_eq!(q.sql, "SELECT * FROM users WHERE (name = ?)");
    assert_eq!(q.params, vec![SqlValue::Text("Alice".to_string())]);
}

#[test]
fn where_text_like() {
    let q = query::<User>().filter(Like::new(Name, "A%")).to_sql();
    assert_eq!(q.sql, "SELECT * FROM users WHERE (name LIKE ?)");
    assert_eq!(q.params, vec![SqlValue::Text("A%".to_string())]);
}

#[test]
fn where_bool_column_used_directly() {
    let q = query::<User>().filter(Active).to_sql();
    assert_eq!(q.sql, "SELECT * FROM users WHERE active");
}

#[test]
fn where_is_null() {
    let q = query::<User>().filter(IsNull::new(Name)).to_sql();
    assert_eq!(q.sql, "SELECT * FROM users WHERE (name IS NULL)");
    assert!(q.params.is_empty());
}

#[test]
fn and_combinator() {
    let q = query::<User>().filter(And::new(Gt::new(Age, 18), Lt::new(Age, 65))).to_sql();
    assert_eq!(q.sql, "SELECT * FROM users WHERE ((age > ?) AND (age < ?))");
    assert_eq!(q.params, vec![SqlValue::Integer(18), SqlValue::Integer(65)]);
}

#[test]
fn or_combinator() {
    let q = query::<User>().filter(Or::new(eq(Name, "Alice"), eq(Name, "Bob"))).to_sql();
    assert_eq!(q.sql, "SELECT * FROM users WHERE ((name = ?) OR (name = ?))");
    assert_eq!(q.params, vec![SqlValue::Text("Alice".to_string()), SqlValue::Text("Bob".to_string())]);
}

#[test]
fn not_negation() {
    let q = query::<User>().filter(not(Active)).to_sql();
    assert_eq!(q.sql, "SELECT * FROM users WHERE NOT (active)");
}

#[test]
fn order_by_asc() {
    let q = query::<User>().order_by(Age).to_sql();
    assert_eq!(q.sql, "SELECT * FROM users ORDER BY age");
}

#[test]
fn order_by_desc() {
    let q = query::<User>().order_by_desc(Age).to_sql();
    assert_eq!(q.sql, "SELECT * FROM users ORDER BY age DESC");
}

#[test]
fn order_by_multiple_columns_preserves_call_order() {
    let q = query::<User>().order_by(Age).order_by_desc(Name).to_sql();
    assert_eq!(q.sql, "SELECT * FROM users ORDER BY age, name DESC");
}

#[test]
fn limit_only() {
    let q = query::<User>().limit(10).to_sql();
    assert_eq!(q.sql, "SELECT * FROM users LIMIT 10");
}

#[test]
fn offset_only() {
    let q = query::<User>().offset(20).to_sql();
    assert_eq!(q.sql, "SELECT * FROM users OFFSET 20");
}

#[test]
fn limit_and_offset() {
    let q = query::<User>().limit(10).offset(20).to_sql();
    assert_eq!(q.sql, "SELECT * FROM users LIMIT 10 OFFSET 20");
}

#[test]
fn distinct_tables_emit_distinct_sql() {
    let q1 = query::<User>().to_sql();
    let q2 = query::<Order>().to_sql();
    assert_eq!(q1.sql, "SELECT * FROM users");
    assert_eq!(q2.sql, "SELECT * FROM orders");
}

#[test]
fn sql_injection_attempt_goes_into_params_not_sql() {
    let nasty = "Alice'; DROP TABLE users; --";
    let q = query::<User>().filter(eq(Name, nasty)).to_sql();
    assert_eq!(q.sql, "SELECT * FROM users WHERE (name = ?)");
    assert_eq!(q.params, vec![SqlValue::Text(nasty.to_string())]);
    assert!(!q.sql.contains("DROP"));
}

#[test]
fn string_owned_works_as_bind() {
    let name: String = "Bob".to_string();
    let q = query::<User>().filter(eq(Name, name)).to_sql();
    assert_eq!(q.params, vec![SqlValue::Text("Bob".to_string())]);
}

#[test]
fn explicit_lit_int() {
    let q = query::<User>().filter(eq(Age, Lit::<Integer>::integer(42))).to_sql();
    assert_eq!(q.sql, "SELECT * FROM users WHERE (age = ?)");
    assert_eq!(q.params, vec![SqlValue::Integer(42)]);
}

#[test]
fn explicit_lit_text() {
    let q = query::<User>().filter(eq(Name, Lit::<Text>::text("Alice".to_string()))).to_sql();
    assert_eq!(q.params, vec![SqlValue::Text("Alice".to_string())]);
}

#[test]
fn a_full_statement_renders_every_clause_in_order() {
    let q = query::<User>()
        .filter(Gt::new(Age, 18))
        .filter(eq(Active, true))
        .order_by_desc(Age)
        .limit(10)
        .offset(5)
        .to_sql();
    assert_eq!(q.sql, "SELECT * FROM users WHERE ((age > ?) AND (active = ?)) ORDER BY age DESC LIMIT 10 OFFSET 5");
    assert_eq!(q.params, vec![SqlValue::Integer(18), SqlValue::Boolean(true)]);
}

#[test]
fn orders_filter_by_customer() {
    let q = query::<Order>().filter(eq(CustomerId, 42)).to_sql();
    assert_eq!(q.sql, "SELECT * FROM orders WHERE (customer_id = ?)");
    assert_eq!(q.params, vec![SqlValue::Integer(42)]);
    let _ = Order { id: 1, customer_id: 42, product: String::new() };
    let _ = User { id: 1, name: String::new(), age: 0, active: false };
}

impl BelongsTo<Users> for Active {}
impl BelongsTo<Users> for Age {}
impl BelongsTo<Orders> for CustomerId {}
impl BelongsTo<Users> for Name {}
