use linq_rs::eval::Eval;
use linq_rs::expr::{Expr, Like};
use linq_rs::like::like_match;
use linq_rs::rows::{query, Entity};
use linq_rs::sql_types::Text;
use linq_rs::statement::Table;
use linq_rs::value::SqlValue;
use linq_rs::expr::BelongsTo;

pub struct T {
    pub id: i64,
    pub s: String,
}

pub struct TTable;

impl Entity for T {
    type Table = TTable;
}

impl Table for TTable {
    fn name() -> &'static str {
        "t"
    }
    fn columns() -> &'static str {
        "id, s"
    }
}

#[derive(Clone, Copy)]
pub struct S;

impl Expr for S {
    type SqlType = Text;
    fn write_to(&self, sql: &mut String, _params: &mut Vec<SqlValue>) {
        sql.push_str("s");
    }
}

impl<'r> Eval<'r, T> for S {
    fn eval(&'r self, row: &'r T) -> &'r str {
        &row.s
    }
}

fn count_matches(rows: &[T], pattern: &'static str) -> usize {
    let mut it = query::<T>().filter(Like::new(S, pattern)).to_memory(rows);
    let mut n = 0;
    while it.next().is_some() {
        n += 1;
    }
    n
}

const CORPUS: &[(&str, &str, bool)] = &[
    ("Eve", "eve", true),
    ("eve", "EVE", true),
    ("EVE", "Eve", true),
    ("Eve", "Eve", true),
    ("Eve", "evf", false),
    ("apple", "a%", true),
    ("apple", "A%", true),
    ("apple", "%E", true),
    ("apple", "%PL%", true),
    ("apple", "%", true),
    ("apple", "%%", true),
    ("apple", "a%e", true),
    ("apple", "A%E", true),
    ("apple", "%x%", false),
    ("Eve", "Ev_", true),
    ("Eve", "_ve", true),
    ("Eve", "_V_", true),
    ("Eve", "___", true),
    ("Eve", "____", false),
    ("Eve", "__", false),
    ("apple", "apple", true),
    ("apple", "APPLE", true),
    ("apple", "appl", false),
    ("apple", "applee", false),
    ("", "", true),
    ("", "%", true),
    ("", "_", false),
    ("a", "", false),
    ("aaa", "%a", true),
    ("aaa", "a%a", true),
    ("abcabc", "%abc", true),
    ("abcabc", "a%c", true),
    ("banana", "%na%na%", true),
    ("banana", "%NA%NA%", true),
    ("50%", "50%", true),
    ("50%", "5__", true),
    ("a_b", "a_b", true),
    ("a_b", "A_B", true),
    ("É", "é", false),
    ("é", "É", false),
    ("É", "É", true),
    ("Straße", "strasse", false),
    ("Straße", "STRAßE", true),
];

#[test]
fn in_memory_like_matches_sqlite_on_every_corpus_case() {
    let mut wrong = Vec::new();
    for &(text, pattern, expected) in CORPUS {
        let rows = vec![T { id: 1, s: text.to_string() }];
        let hit = count_matches(&rows, pattern) == 1;
        if hit != expected {
            wrong.push(format!("{text:?} LIKE {pattern:?}: in-memory={hit} sqlite={expected}"));
        }
    }
    assert!(
        wrong.is_empty(),
        "{} of {} cases disagree with SQLite:\n  {}",
        wrong.len(),
        CORPUS.len(),
        wrong.join("\n  ")
    );
}

#[test]
fn ascii_case_is_folded_in_both_directions() {
    for (text, pattern) in [("Eve", "eve"), ("eve", "EVE"), ("apple", "%PL%"), ("Eve", "_V_")] {
        let rows = vec![T { id: 1, s: text.to_string() }];
        assert_eq!(count_matches(&rows, pattern), 1, "{text:?} LIKE {pattern:?} must match: SQLite folds ASCII case");
    }
}

#[test]
fn non_ascii_case_is_not_folded() {
    let rows = vec![T { id: 1, s: "É".to_string() }];
    assert_eq!(count_matches(&rows, "é"), 0, "SQLite does not fold non-ASCII case, so neither does this");
    assert_eq!(rows[0].id, 1);
}

#[test]
fn like_match_directly() {
    assert!(like_match("Banana", "b%A"));
    assert!(!like_match("Banana", "b%x"));
    assert!(like_match("%", "%"));
    assert!(like_match("a%b", "a_b"));
}

#[test]
fn the_emitted_sql_is_unchanged() {
    assert_eq!(query::<T>().filter(Like::new(S, "a%")).to_sql().sql, "SELECT id, s FROM t WHERE (s LIKE ?)");
}

impl BelongsTo<TTable> for S {}
