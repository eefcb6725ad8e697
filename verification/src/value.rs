//! Runtime SQL values: the bind values that accompany a rendered query.
use vstd::prelude::*;

use crate::decimal::{push_signed_decimal, signed_decimal};
use vstd::string::StringExecFns;

verus! {

/// A SQL value at runtime, suitable for binding as a `?` placeholder.
#[derive(Debug, Clone, PartialEq)]
pub enum SqlValue {
    /// A SQL `INTEGER` value, normalised to `i64`.
    Integer(i64),
    /// A SQL `TEXT` value.
    Text(String),
    /// A SQL `BOOLEAN` value.
    Boolean(bool),
    /// SQL `NULL`.
    Null,
}

/// The `Debug` text of a string: quoted, with quotes, backslashes and
/// control characters escaped, as `<str as Debug>::fmt` writes it.
pub uninterp spec fn str_debug_text(s: Seq<char>) -> Seq<char>;

/// `<str as Debug>::fmt`, through `format!`. Its text is a function of the
/// string alone, named [`str_debug_text`]; the escaping rules are not
/// restated here.
#[verifier::external_body]
fn debug_str(s: &str) -> (r: String)
    ensures
        r@ == str_debug_text(s@),
{
    format!("{:?}", s)
}

/// The `Debug` text of a value, e.g. `Integer(42)` or `Text("a")`.
pub open spec fn value_debug(v: SqlValue) -> Seq<char> {
    match v {
        SqlValue::Integer(n) => "Integer("@ + signed_decimal(n as int) + ")"@,
        SqlValue::Text(t) => "Text("@ + str_debug_text(t@) + ")"@,
        SqlValue::Boolean(b) => if b {
            "Boolean(true)"@
        } else {
            "Boolean(false)"@
        },
        SqlValue::Null => "Null"@,
    }
}

impl SqlValue {
    /// The `Debug` text of this value, e.g. `Integer(42)`.
    pub fn debug_text(&self) -> (r: String)
        ensures
            r@ == value_debug(*self),
    {
        match self {
            SqlValue::Integer(n) => {
                let mut s = String::from_str("Integer(");
                push_signed_decimal(&mut s, *n);
                s.append(")");
                s
            },
            SqlValue::Text(t) => {
                let mut s = String::from_str("Text(");
                let q = debug_str(t.as_str());
                s.append(q.as_str());
                s.append(")");
                s
            },
            SqlValue::Boolean(b) => {
                if *b {
                    String::from_str("Boolean(true)")
                } else {
                    String::from_str("Boolean(false)")
                }
            },
            SqlValue::Null => String::from_str("Null"),
        }
    }
}

} // verus!
