//! What the SQL operators mean in memory: SQL's three-valued truth
//! tables for `AND`, `OR` and `NOT`, `IS NULL`, `LIKE` with NULL, and the
//! orders `ORDER BY` sorts by.
use vstd::prelude::*;

use crate::compare::{lemma_bytes_order_meaning, lex_less};
use crate::like::like_matches;
use crate::sortable::Sortable;
use crate::sql_types::{Boolean, Integer, Nullable, Text};
use crate::rows::ReadField;
use crate::tri::{keeps, Like3, Logic3, Negate3, NullCheck, TruthValue};
use vstd::string::StringSliceAdditionalSpecFns;

verus! {

/// `AND`, `OR` and `NOT` follow SQL's three-valued truth tables, whether or
/// not either side is nullable: FALSE decides `AND`, TRUE decides `OR`,
/// otherwise NULL on either side gives NULL, and `NOT NULL` is NULL.
pub proof fn lemma_sql_truth_tables<'x>(a: bool, b: bool)
    ensures
        <Boolean as Logic3<'x, Boolean>>::spec_and(a, b) == (a && b),
        <Boolean as Logic3<'x, Boolean>>::spec_or(a, b) == (a || b),
        <Boolean as Logic3<'x, Nullable<Boolean>>>::spec_and(a, Some(b)) == Some(a && b),
        <Boolean as Logic3<'x, Nullable<Boolean>>>::spec_or(a, Some(b)) == Some(a || b),
        <Nullable<Boolean> as Logic3<'x, Boolean>>::spec_and(Some(a), b) == Some(a && b),
        <Nullable<Boolean> as Logic3<'x, Boolean>>::spec_or(Some(a), b) == Some(a || b),
        <Nullable<Boolean> as Logic3<'x, Nullable<Boolean>>>::spec_and(Some(a), Some(b)) == Some(a && b),
        <Nullable<Boolean> as Logic3<'x, Nullable<Boolean>>>::spec_or(Some(a), Some(b)) == Some(a || b),
        <Boolean as Logic3<'x, Nullable<Boolean>>>::spec_and(a, None::<bool>) == if a { None::<bool> } else { Some(false) },
        <Boolean as Logic3<'x, Nullable<Boolean>>>::spec_or(a, None::<bool>) == if a { Some(true) } else { None::<bool> },
        <Nullable<Boolean> as Logic3<'x, Boolean>>::spec_and(None::<bool>, b) == if b { None::<bool> } else { Some(false) },
        <Nullable<Boolean> as Logic3<'x, Boolean>>::spec_or(None::<bool>, b) == if b { Some(true) } else { None::<bool> },
        <Nullable<Boolean> as Logic3<'x, Nullable<Boolean>>>::spec_and(Some(a), None::<bool>) == if a { None::<bool> } else { Some(false) },
        <Nullable<Boolean> as Logic3<'x, Nullable<Boolean>>>::spec_or(Some(a), None::<bool>) == if a { Some(true) } else { None::<bool> },
        <Nullable<Boolean> as Logic3<'x, Nullable<Boolean>>>::spec_and(None::<bool>, Some(b)) == if b { None::<bool> } else { Some(false) },
        <Nullable<Boolean> as Logic3<'x, Nullable<Boolean>>>::spec_or(None::<bool>, Some(b)) == if b { Some(true) } else { None::<bool> },
        <Nullable<Boolean> as Logic3<'x, Nullable<Boolean>>>::spec_and(None::<bool>, None::<bool>) == None::<bool>,
        <Nullable<Boolean> as Logic3<'x, Nullable<Boolean>>>::spec_or(None::<bool>, None::<bool>) == None::<bool>,
        <Boolean as Negate3<'x>>::spec_not(a) == !a,
        <Nullable<Boolean> as Negate3<'x>>::spec_not(Some(a)) == Some(!a),
        <Nullable<Boolean> as Negate3<'x>>::spec_not(None::<bool>) == None::<bool>,
{
}

/// `IS NULL` is never true of a value of a non-nullable type, and of a
/// nullable value exactly when it is NULL.
pub proof fn lemma_is_null_meaning<'x>(i: i64, t: &'x str, b: bool, o: Option<i64>)
    ensures
        !<Integer as NullCheck<'x>>::spec_is_null(i),
        !<Text as NullCheck<'x>>::spec_is_null(t),
        !<Boolean as NullCheck<'x>>::spec_is_null(b),
        <Nullable<Integer> as NullCheck<'x>>::spec_is_null(o) == (o is None),
{
}

/// `text LIKE pattern` matches the text (on the left) against the pattern
/// (on the right), whether or not either side is nullable; NULL on either
/// side gives NULL.
pub proof fn lemma_like_meaning<'x>(t: &'x str, p: &'x str)
    ensures
        <Text as Like3<'x, Text>>::spec_like(t, p) == like_matches(t@, p@),
        <Text as Like3<'x, Nullable<Text>>>::spec_like(t, Some(p)) == Some(like_matches(t@, p@)),
        <Nullable<Text> as Like3<'x, Text>>::spec_like(Some(t), p) == Some(like_matches(t@, p@)),
        <Nullable<Text> as Like3<'x, Nullable<Text>>>::spec_like(Some(t), Some(p)) == Some(like_matches(t@, p@)),
        <Text as Like3<'x, Nullable<Text>>>::spec_like(t, None::<&'x str>) == None::<bool>,
        <Nullable<Text> as Like3<'x, Text>>::spec_like(None::<&'x str>, p) == None::<bool>,
        <Nullable<Text> as Like3<'x, Nullable<Text>>>::spec_like(Some(t), None::<&'x str>) == None::<bool>,
        <Nullable<Text> as Like3<'x, Nullable<Text>>>::spec_like(None::<&'x str>, Some(p)) == None::<bool>,
{
}

/// `ORDER BY` sorts integers by value, text by its UTF-8 bytes (Rust's
/// order on `str`) and booleans `false` first: the three-way order is
/// negative, zero or positive as the left value is less, equal or greater.
pub proof fn lemma_order_by_meaning<'x>(a: i64, b: i64, s: &'x str, t: &'x str, p: bool, q: bool)
    ensures
        (<Integer as Sortable>::spec_order(a, b) < 0) == (a < b),
        (<Integer as Sortable>::spec_order(a, b) == 0) == (a == b),
        (<Integer as Sortable>::spec_order(a, b) > 0) == (a > b),
        (<Text as Sortable>::spec_order(s, t) < 0) == lex_less(s.spec_bytes(), t.spec_bytes()),
        (<Text as Sortable>::spec_order(s, t) == 0) == (s.spec_bytes() == t.spec_bytes()),
        (<Text as Sortable>::spec_order(s, t) > 0) == lex_less(t.spec_bytes(), s.spec_bytes()),
        (<Boolean as Sortable>::spec_order(p, q) < 0) == (!p && q),
        (<Boolean as Sortable>::spec_order(p, q) == 0) == (p == q),
        (<Boolean as Sortable>::spec_order(p, q) > 0) == (p && !q),
{
    lemma_bytes_order_meaning(s.spec_bytes(), t.spec_bytes());
}

/// A `WHERE` clause reads a boolean as itself and a nullable boolean as
/// its three values, and keeps a row only on TRUE: FALSE and NULL drop it.
pub proof fn lemma_where_reads_truth<'x>(b: bool, o: Option<bool>)
    ensures
        <Boolean as TruthValue<'x>>::spec_tri(b) == Some(b),
        <Nullable<Boolean> as TruthValue<'x>>::spec_tri(o) == o,
        keeps(Some(true)),
        !keeps(Some(false)),
        !keeps(None),
{
}

/// A struct field reads as the SQL value it holds: integers by value
/// (`i32` widened), booleans as themselves, text as the same characters,
/// and an `Option` field as NULL exactly when it is `None`.
pub proof fn lemma_fields_read_as_held<'r>(i: i64, j: i32, b: bool, s: String, t: &'r str, o: Option<i64>, v: i64, w: bool, u: &'r str, n: Option<i64>)
    ensures
        <Integer as ReadField<'r, i64>>::reads_as(&i, v) == (v == i),
        <Integer as ReadField<'r, i32>>::reads_as(&j, v) == (v == j),
        <Boolean as ReadField<'r, bool>>::reads_as(&b, w) == (w == b),
        <Text as ReadField<'r, String>>::reads_as(&s, u) == (u@ == s@),
        <Text as ReadField<'r, str>>::reads_as(t, u) == (u@ == t@),
        <Nullable<Integer> as ReadField<'r, Option<i64>>>::reads_as(&o, n) == match o {
            Some(x) => n == Some(x),
            None => n is None,
        },
{
}

} // verus!
