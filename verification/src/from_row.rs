//! Row materialization: turning a driver's result set back into typed values.
//!
//! Columns are matched by name, never by position: a `SELECT *` expands in
//! table-declaration order, which can change under a compiled binary.
//! Resolution happens once per result set and yields a [`Layout`]; each
//! value is then decoded for its declared SQL type, with NULL, shape and
//! range checked rather than coerced.
use vstd::prelude::*;

use core::marker::PhantomData;
use crate::compare::text_eq;
use crate::sql_types::{Boolean, Integer, Nullable, Text};
use crate::decimal::{decimal, push_decimal};
use crate::value::{value_debug, SqlValue};
use vstd::string::StringExecFns;

verus! {

// ═══════════════════════════════════════════════════════════════════════
// Values and errors
// ═══════════════════════════════════════════════════════════════════════

/// A single value from a result set, borrowed from the driver's buffer.
#[derive(Debug, Clone, Copy, PartialEq)]
pub enum SqlValueRef<'a> {
    /// SQL `NULL`: data at this layer; whether it is allowed depends on the
    /// declared SQL type.
    Null,
    /// An integral value, normalised to `i64`.
    Integer(i64),
    /// UTF-8 text borrowed from the row buffer.
    Text(&'a str),
    /// Raw bytes borrowed from the row buffer.
    Blob(&'a [u8]),
}

/// The name of a value's variant, for error messages.
pub open spec fn variant_name_of(v: SqlValueRef<'_>) -> Seq<char> {
    match v {
        SqlValueRef::Null => "Null"@,
        SqlValueRef::Integer(_) => "Integer"@,
        SqlValueRef::Text(_) => "Text"@,
        SqlValueRef::Blob(_) => "Blob"@,
    }
}

impl SqlValueRef<'_> {
    /// An owned [`SqlValue`], for error payloads that must outlive the row.
    pub fn to_owned_value(&self) -> (r: SqlValue)
        ensures
            match *self {
                SqlValueRef::Null => r == SqlValue::Null,
                SqlValueRef::Integer(v) => r == SqlValue::Integer(v),
                SqlValueRef::Text(t) => r matches SqlValue::Text(s) && s@ == t@,
                SqlValueRef::Blob(b) => r matches SqlValue::Text(s) && s@ == "<"@ + decimal(b@.len()) + " bytes>"@,
            },
    {
        match *self {
            SqlValueRef::Null => SqlValue::Null,
            SqlValueRef::Integer(v) => SqlValue::Integer(v),
            SqlValueRef::Text(t) => SqlValue::Text(t.to_string()),
            SqlValueRef::Blob(b) => {
                let mut s = String::new();
                s.append("<");
                push_decimal(&mut s, b.len() as u64);
                s.append(" bytes>");
                proof {
                    reveal_strlit("<");
                    reveal_strlit(" bytes>");
                    assert(s@ =~= "<"@ + decimal(b@.len()) + " bytes>"@);
                }
                SqlValue::Text(s)
            },
        }
    }

    /// The name of this variant, for error messages.
    pub fn variant_name(&self) -> (r: &'static str)
        ensures
            r@ == variant_name_of(*self),
    {
        match self {
            SqlValueRef::Null => "Null",
            SqlValueRef::Integer(_) => "Integer",
            SqlValueRef::Text(_) => "Text",
            SqlValueRef::Blob(_) => "Blob",
        }
    }
}

/// Why a row could not be materialized.
///
/// A missing column and a NULL value are different variants: "this column
/// is absent" is not "this value is null".
#[derive(Debug)]
pub enum RowError {
    /// The result set has no column of this name.
    NoSuchColumn {
        /// The column the entity asked for.
        column: &'static str,
        /// What the result set offered, in order (`?` for an unnamed column).
        available: Vec<String>,
    },
    /// The result set has more than one column of this name.
    AmbiguousColumn {
        /// The ambiguous name.
        column: &'static str,
        /// The first two positions carrying it.
        at: (usize, usize),
    },
    /// The value was NULL but the column is not declared `Nullable<_>`.
    UnexpectedNull {
        /// The column that was null.
        column: &'static str,
        /// Which row, when known.
        row: Option<usize>,
    },
    /// The driver returned a value of the wrong shape for the declared type.
    TypeMismatch {
        /// The column that failed.
        column: &'static str,
        /// The declared SQL type, e.g. `"INTEGER"`.
        expected: &'static str,
        /// What the driver handed over, e.g. `"Text"`.
        found: &'static str,
        /// Which row, when known.
        row: Option<usize>,
    },
    /// The value had the right shape but does not fit the target Rust type.
    OutOfRange {
        /// The column that failed.
        column: &'static str,
        /// The Rust type it would not fit, e.g. `"i32"`.
        target: &'static str,
        /// The offending value.
        value: SqlValue,
        /// Which row, when known.
        row: Option<usize>,
    },
    /// The driver itself failed.
    Driver {
        /// The column being read, when the failure was attributable.
        column: Option<&'static str>,
        /// The driver's own description of the failure.
        message: String,
    },
}

/// The column an error is about, when it names one.
pub open spec fn error_column(e: RowError) -> Option<&'static str> {
    match e {
        RowError::NoSuchColumn { column, .. } => Some(column),
        RowError::AmbiguousColumn { column, .. } => Some(column),
        RowError::UnexpectedNull { column, .. } => Some(column),
        RowError::TypeMismatch { column, .. } => Some(column),
        RowError::OutOfRange { column, .. } => Some(column),
        RowError::Driver { column, .. } => column,
    }
}

/// `e` with row ordinal `n` attached where the variant carries a row and
/// none is set yet.
pub open spec fn with_row(e: RowError, n: usize) -> RowError {
    match e {
        RowError::UnexpectedNull { column, row: None } => RowError::UnexpectedNull { column, row: Some(n) },
        RowError::TypeMismatch { column, expected, found, row: None } => RowError::TypeMismatch {
            column,
            expected,
            found,
            row: Some(n),
        },
        RowError::OutOfRange { column, target, value, row: None } => RowError::OutOfRange {
            column,
            target,
            value,
            row: Some(n),
        },
        other => other,
    }
}

impl RowError {
    /// A driver failure while reading `column`, with the driver's own
    /// description of it.
    pub fn driver(column: &'static str, message: String) -> (r: Self)
        ensures
            r == (RowError::Driver { column: Some(column), message }),
    {
        RowError::Driver { column: Some(column), message }
    }

    /// The column this error is about, when it names one.
    pub fn column(&self) -> (r: Option<&'static str>)
        ensures
            r == error_column(*self),
    {
        match self {
            RowError::NoSuchColumn { column, .. } => Some(*column),
            RowError::AmbiguousColumn { column, .. } => Some(*column),
            RowError::UnexpectedNull { column, .. } => Some(*column),
            RowError::TypeMismatch { column, .. } => Some(*column),
            RowError::OutOfRange { column, .. } => Some(*column),
            RowError::Driver { column, .. } => *column,
        }
    }

    /// Attaches a row ordinal, so a failure in a long fetch says which row.
    /// An ordinal already set is left alone.
    pub fn at_row(self, n: usize) -> (r: Self)
        ensures
            r == with_row(self, n),
    {
        match self {
            RowError::UnexpectedNull { column, row: None } => RowError::UnexpectedNull { column, row: Some(n) },
            RowError::TypeMismatch { column, expected, found, row: None } => RowError::TypeMismatch {
                column,
                expected,
                found,
                row: Some(n),
            },
            RowError::OutOfRange { column, target, value, row: None } => RowError::OutOfRange {
                column,
                target,
                value,
                row: Some(n),
            },
            other => other,
        }
    }
}

/// `parts` joined with `sep` between neighbours.
pub open spec fn join(parts: Seq<Seq<char>>, sep: Seq<char>) -> Seq<char>
    decreases parts.len(),
{
    if parts.len() == 0 {
        Seq::empty()
    } else if parts.len() == 1 {
        parts[0]
    } else {
        join(parts.drop_last(), sep) + sep + parts.last()
    }
}

/// The texts of a list of strings.
pub open spec fn texts(v: Seq<String>) -> Seq<Seq<char>> {
    v.map_values(|s: String| s@)
}

/// `" (row n)"` when a row ordinal is known, else nothing.
pub open spec fn row_suffix(row: Option<usize>) -> Seq<char> {
    match row {
        Some(n) => " (row "@ + decimal(n as nat) + ")"@,
        None => Seq::empty(),
    }
}

/// The message of an error.
pub open spec fn error_message(e: RowError) -> Seq<char> {
    match e {
        RowError::NoSuchColumn { column, available } => "no column `"@ + column@ + "` in the result set (it has: "@
            + join(texts(available@), ", "@) + ")"@,
        RowError::AmbiguousColumn { column, at } => "column `"@ + column@
            + "` appears more than once in the result set (positions "@ + decimal(at.0 as nat) + " and "@
            + decimal(at.1 as nat) + "); name it explicitly or alias it"@,
        RowError::UnexpectedNull { column, row } => "column `"@ + column@ + "` is NULL but is not declared Nullable<_>"@
            + row_suffix(row),
        RowError::TypeMismatch { column, expected, found, row } => "column `"@ + column@ + "` is declared "@ + expected@
            + " but the driver returned "@ + found@ + row_suffix(row),
        RowError::OutOfRange { column, target, value, row } => "column `"@ + column@ + "`: "@ + value_debug(value)
            + " does not fit `"@ + target@ + "`"@ + row_suffix(row),
        RowError::Driver { column, message } => match column {
            Some(c) => "driver error reading column `"@ + c@ + "`: "@ + message@,
            None => "driver error: "@ + message@,
        },
    }
}

/// Appends `parts` joined with `sep`.
fn push_joined(s: &mut String, parts: &Vec<String>, sep: &str)
    ensures
        final(s)@ == old(s)@ + join(texts(parts@), sep@),
{
    let ghost start = s@;
    let mut i: usize = 0;
    while i < parts.len()
        invariant
            i <= parts@.len(),
            s@ == start + join(texts(parts@.take(i as int)), sep@),
        decreases parts@.len() - i,
    {
        proof {
            assert(texts(parts@.take(i + 1)).drop_last() =~= texts(parts@.take(i as int)));
            assert(texts(parts@.take(i + 1)).last() == parts@[i as int]@);
        }
        if i > 0 {
            s.append(sep);
        }
        s.append(parts[i].as_str());
        proof {
            if i == 0 {
                assert(texts(parts@.take(1)) =~= seq![parts@[0]@]);
            }
            assert(s@ =~= start + join(texts(parts@.take(i + 1)), sep@));
        }
        i = i + 1;
    }
    proof {
        assert(parts@.take(parts@.len() as int) =~= parts@);
    }
}

/// Appends `" (row n)"` when a row ordinal is known.
fn push_row_suffix(s: &mut String, row: Option<usize>)
    ensures
        final(s)@ == old(s)@ + row_suffix(row),
{
    match row {
        Some(n) => {
            s.append(" (row ");
            push_decimal(s, n as u64);
            s.append(")");
        },
        None => {
            assert(s@ =~= old(s)@ + Seq::<char>::empty());
        },
    }
}

impl RowError {
    /// The message of this error, e.g.
    /// ``no column `dept` in the result set (it has: id, name)``.
    pub fn message(&self) -> (r: String)
        ensures
            r@ == error_message(*self),
    {
        match self {
            RowError::NoSuchColumn { column, available } => {
                let mut s = String::from_str("no column `");
                s.append(column);
                s.append("` in the result set (it has: ");
                push_joined(&mut s, available, ", ");
                s.append(")");
                s
            },
            RowError::AmbiguousColumn { column, at } => {
                let mut s = String::from_str("column `");
                s.append(column);
                s.append("` appears more than once in the result set (positions ");
                push_decimal(&mut s, at.0 as u64);
                s.append(" and ");
                push_decimal(&mut s, at.1 as u64);
                s.append("); name it explicitly or alias it");
                s
            },
            RowError::UnexpectedNull { column, row } => {
                let mut s = String::from_str("column `");
                s.append(column);
                s.append("` is NULL but is not declared Nullable<_>");
                push_row_suffix(&mut s, *row);
                s
            },
            RowError::TypeMismatch { column, expected, found, row } => {
                let mut s = String::from_str("column `");
                s.append(column);
                s.append("` is declared ");
                s.append(expected);
                s.append(" but the driver returned ");
                s.append(found);
                push_row_suffix(&mut s, *row);
                s
            },
            RowError::OutOfRange { column, target, value, row } => {
                let mut s = String::from_str("column `");
                s.append(column);
                s.append("`: ");
                let v = value.debug_text();
                s.append(v.as_str());
                s.append(" does not fit `");
                s.append(target);
                s.append("`");
                push_row_suffix(&mut s, *row);
                s
            },
            RowError::Driver { column, message } => {
                match column {
                    Some(c) => {
                        let mut s = String::from_str("driver error reading column `");
                        s.append(c);
                        s.append("`: ");
                        s.append(message.as_str());
                        s
                    },
                    None => {
                        let mut s = String::from_str("driver error: ");
                        s.append(message.as_str());
                        s
                    },
                }
            },
        }
    }
}

// ═══════════════════════════════════════════════════════════════════════
// The driver seam
// ═══════════════════════════════════════════════════════════════════════

/// What a result set's columns are called. Implemented by a driver adapter.
pub trait ColumnSet {
    /// How many columns the result set has.
    spec fn spec_count(&self) -> nat;

    /// The name of the column at `at`, if it has one.
    spec fn spec_name_at(&self, at: int) -> Option<Seq<char>>;

    /// How many columns the result set has.
    fn column_count(&self) -> (r: usize)
        ensures
            r == self.spec_count(),
    ;

    /// The name of the column at `at`, or `None` if it has none (or `at` is
    /// out of range).
    fn column_name_at(&self, at: usize) -> (r: Option<&str>)
        ensures
            match r {
                Some(name) => self.spec_name_at(at as int) == Some(name@),
                None => self.spec_name_at(at as int) is None,
            },
    ;
}

/// A plain list of column names is a column set.
impl ColumnSet for Vec<String> {
    open spec fn spec_count(&self) -> nat {
        self@.len()
    }

    open spec fn spec_name_at(&self, at: int) -> Option<Seq<char>> {
        if 0 <= at < self@.len() {
            Some(self@[at]@)
        } else {
            None
        }
    }

    fn column_count(&self) -> (r: usize) {
        self.len()
    }

    fn column_name_at(&self, at: usize) -> (r: Option<&str>) {
        if at < self.len() {
            Some(self[at].as_str())
        } else {
            None
        }
    }
}

/// A list of column names in which a column may have no name.
impl ColumnSet for Vec<Option<String>> {
    open spec fn spec_count(&self) -> nat {
        self@.len()
    }

    open spec fn spec_name_at(&self, at: int) -> Option<Seq<char>> {
        if 0 <= at < self@.len() {
            match self@[at] {
                Some(name) => Some(name@),
                None => None,
            }
        } else {
            None
        }
    }

    fn column_count(&self) -> (r: usize) {
        self.len()
    }

    fn column_name_at(&self, at: usize) -> (r: Option<&str>) {
        if at < self.len() {
            match &self[at] {
                Some(name) => Some(name.as_str()),
                None => None,
            }
        } else {
            None
        }
    }
}

/// One row of a result set.
pub trait RowSource<'a>: ColumnSet {
    /// The value at `at`; `column` is passed so a driver failure can name the
    /// column it was reading. SQL NULL is [`SqlValueRef::Null`], not an error.
    fn value_at(&self, at: usize, column: &'static str) -> Result<SqlValueRef<'a>, RowError>;
}

// ═══════════════════════════════════════════════════════════════════════
// Layout and name resolution
// ═══════════════════════════════════════════════════════════════════════

/// Where each of a shape's declared columns sits in a particular result set.
/// The `R` parameter ties a layout to the shape it was resolved for.
#[derive(Debug)]
pub struct Layout<R: ?Sized> {
    at: Vec<usize>,
    _shape: PhantomData<R>,
}

impl<R: ?Sized> Layout<R> {
    /// The resolved position of each declared column.
    pub closed spec fn spec_at(&self) -> Seq<usize> {
        self.at@
    }

    /// The resolved position of the `i`th declared column.
    pub fn position(&self, i: usize) -> (r: usize)
        requires
            i < self.spec_at().len(),
        ensures
            r == self.spec_at()[i as int],
    {
        self.at[i]
    }

    /// How many columns this layout resolves.
    pub fn len(&self) -> (r: usize)
        ensures
            r == self.spec_at().len(),
    {
        self.at.len()
    }

    /// Whether the shape declares no columns.
    pub fn is_empty(&self) -> (r: bool)
        ensures
            r == (self.spec_at().len() == 0),
    {
        self.at.len() == 0
    }

    /// Whether every column resolved to its own declared position, i.e. the
    /// result set is already in the shape's order.
    pub fn is_identity(&self) -> (r: bool)
        ensures
            r == forall|i: int| 0 <= i < self.spec_at().len() ==> #[trigger] self.spec_at()[i] == i,
    {
        let mut i: usize = 0;
        while i < self.at.len()
            invariant
                i <= self.at@.len(),
                forall|j: int| 0 <= j < i ==> #[trigger] self.at@[j] == j,
            decreases self.at@.len() - i,
        {
            if self.at[i] != i {
                assert(self.spec_at()[i as int] != i);
                return false;
            }
            i = i + 1;
        }
        true
    }
}

/// The column at `i` is named `want`.
pub open spec fn named<C: ColumnSet + ?Sized>(cols: &C, want: Seq<char>, i: int) -> bool {
    cols.spec_name_at(i) == Some(want)
}

/// `p` is the only column below `n` named `want`.
pub open spec fn unique_match<C: ColumnSet + ?Sized>(cols: &C, want: Seq<char>, n: int, p: int) -> bool {
    &&& 0 <= p < n
    &&& named(cols, want, p)
    &&& forall|i: int| 0 <= i < n && i != p ==> !#[trigger] named(cols, want, i)
}

/// `a` and `b` are the first two columns below `n` named `want`.
pub open spec fn first_two_matches<C: ColumnSet + ?Sized>(cols: &C, want: Seq<char>, n: int, a: int, b: int) -> bool {
    &&& 0 <= a < b < n
    &&& named(cols, want, a)
    &&& named(cols, want, b)
    &&& forall|i: int| 0 <= i < b && i != a ==> !#[trigger] named(cols, want, i)
}

/// No column below `n` is named `want`.
pub open spec fn no_match<C: ColumnSet + ?Sized>(cols: &C, want: Seq<char>, n: int) -> bool {
    forall|i: int| 0 <= i < n ==> !#[trigger] named(cols, want, i)
}

/// The name listed for column `i` in a missing-column error: its name, or
/// `?` when it has none.
pub open spec fn listed_name<C: ColumnSet + ?Sized>(cols: &C, i: int) -> Seq<char> {
    match cols.spec_name_at(i) {
        Some(name) => name,
        None => "?"@,
    }
}

/// Exactly one column is named `want`.
pub open spec fn uniquely_named<C: ColumnSet + ?Sized>(cols: &C, want: Seq<char>) -> bool {
    exists|p: int| unique_match(cols, want, cols.spec_count() as int, p)
}

/// Every one of the first `k` wanted names matches exactly one column.
pub open spec fn resolved_before<C: ColumnSet + ?Sized>(cols: &C, wanted: Seq<&'static str>, k: int) -> bool {
    forall|j: int| 0 <= j < k ==> #[trigger] uniquely_named(cols, wanted[j]@)
}

/// `r` is how resolving the names `wanted` against `cols` comes out: a
/// layout that finds each name's unique column, or the error for the first
/// name that matches more than one column or none.
pub open spec fn resolution<R: ?Sized, C: ColumnSet + ?Sized>(cols: &C, wanted: Seq<&'static str>, r: Result<Layout<R>, RowError>) -> bool {
    match r {
        Ok(layout) => {
            &&& layout.spec_at().len() == wanted.len()
            &&& forall|k: int|
                0 <= k < wanted.len() ==> #[trigger] unique_match(
                    cols,
                    wanted[k]@,
                    cols.spec_count() as int,
                    layout.spec_at()[k] as int,
                )
        },
        Err(RowError::AmbiguousColumn { column, at }) => exists|k: int|
            {
                &&& 0 <= k < wanted.len()
                &&& resolved_before(cols, wanted, k)
                &&& column == #[trigger] wanted[k]
                &&& first_two_matches(cols, wanted[k]@, cols.spec_count() as int, at.0 as int, at.1 as int)
            },
        Err(RowError::NoSuchColumn { column, available }) => exists|k: int|
            {
                &&& 0 <= k < wanted.len()
                &&& resolved_before(cols, wanted, k)
                &&& column == #[trigger] wanted[k]
                &&& no_match(cols, wanted[k]@, cols.spec_count() as int)
                &&& available@.len() == cols.spec_count()
                &&& forall|i: int| 0 <= i < available@.len() ==> #[trigger] available@[i]@ == listed_name(cols, i)
            },
        Err(_) => false,
    }
}

/// Resolves declared column names against a result set, by exact,
/// case-sensitive name. Each wanted name must match exactly one column; the
/// first that matches none, or more than one, is the error.
pub fn resolve_by_name<R: ?Sized, C: ColumnSet + ?Sized>(cols: &C, wanted: &'static [&'static str]) -> (r: Result<
    Layout<R>,
    RowError,
>)
    ensures
        resolution(cols, wanted@, r),
{
    let n = cols.column_count();
    let mut at: Vec<usize> = Vec::new();
    let mut k: usize = 0;
    while k < wanted.len()
        invariant
            n == cols.spec_count(),
            k <= wanted@.len(),
            at@.len() == k,
            forall|j: int| 0 <= j < k ==> #[trigger] unique_match(cols, wanted@[j]@, n as int, at@[j] as int),
        decreases wanted@.len() - k,
    {
        let want = wanted[k];
        let mut found: Option<usize> = None;
        let mut i: usize = 0;
        while i < n
            invariant
                n == cols.spec_count(),
                i <= n,
                k < wanted@.len(),
                want == wanted@[k as int],
                at@.len() == k,
                forall|j: int| 0 <= j < k ==> #[trigger] unique_match(cols, wanted@[j]@, n as int, at@[j] as int),
                match found {
                    Some(p) => p < i && named(cols, want@, p as int) && forall|q: int|
                        0 <= q < i && q != p ==> !#[trigger] named(cols, want@, q),
                    None => forall|q: int| 0 <= q < i ==> !#[trigger] named(cols, want@, q),
                },
            decreases n - i,
        {
            let hit = match cols.column_name_at(i) {
                Some(name) => text_eq(name, want),
                None => false,
            };
            if hit {
                match found {
                    None => {
                        found = Some(i);
                    },
                    Some(first) => {
                        proof {
                            assert(resolved_before(cols, wanted@, k as int)) by {
                                assert forall|j: int| 0 <= j < k implies #[trigger] uniquely_named(cols, wanted@[j]@) by {
                                    assert(unique_match(cols, wanted@[j]@, n as int, at@[j] as int));
                                }
                            }
                            assert(first_two_matches(cols, want@, n as int, first as int, i as int));
                        }
                        return Err(RowError::AmbiguousColumn { column: want, at: (first, i) });
                    },
                }
            }
            i = i + 1;
        }
        match found {
            Some(p) => {
                at.push(p);
            },
            None => {
                let available = column_names(cols);
                proof {
                    assert(resolved_before(cols, wanted@, k as int)) by {
                        assert forall|j: int| 0 <= j < k implies #[trigger] uniquely_named(cols, wanted@[j]@) by {
                            assert(unique_match(cols, wanted@[j]@, n as int, at@[j] as int));
                        }
                    }
                }
                return Err(RowError::NoSuchColumn { column: want, available });
            },
        }
        k = k + 1;
    }
    Ok(Layout { at, _shape: PhantomData })
}

/// The names of all columns, `?` for a column without one.
fn column_names<C: ColumnSet + ?Sized>(cols: &C) -> (r: Vec<String>)
    ensures
        r@.len() == cols.spec_count(),
        forall|i: int| 0 <= i < r@.len() ==> #[trigger] r@[i]@ == listed_name(cols, i),
{
    let n = cols.column_count();
    let mut out: Vec<String> = Vec::new();
    let mut i: usize = 0;
    while i < n
        invariant
            n == cols.spec_count(),
            i <= n,
            out@.len() == i,
            forall|j: int| 0 <= j < i ==> #[trigger] out@[j]@ == listed_name(cols, j),
        decreases n - i,
    {
        let name = match cols.column_name_at(i) {
            Some(name) => name.to_owned(),
            None => "?".to_owned(),
        };
        out.push(name);
        i = i + 1;
    }
    out
}

// ═══════════════════════════════════════════════════════════════════════
// Decoding one value for one declared SQL type
// ═══════════════════════════════════════════════════════════════════════

/// `r` is the error for a value of the wrong shape: it names the column, the
/// declared SQL type and the variant that arrived.
pub open spec fn is_type_mismatch<T>(r: Result<T, RowError>, column: &'static str, expected: Seq<char>, v: SqlValueRef<'_>) -> bool {
    match r {
        Err(RowError::TypeMismatch { column: c, expected: e, found: f, row }) => c == column && e@ == expected && f@
            == variant_name_of(v) && row is None,
        _ => false,
    }
}

/// `r` is the error for an integer `n` that does not fit the Rust type named
/// `target`.
pub open spec fn is_out_of_range<T>(r: Result<T, RowError>, column: &'static str, target: Seq<char>, n: i64) -> bool {
    match r {
        Err(RowError::OutOfRange { column: c, target: t, value, row }) => c == column && t@ == target && value
            == SqlValue::Integer(n) && row is None,
        _ => false,
    }
}

/// The error for a value of the wrong shape.
fn mismatch<T>(column: &'static str, expected: &'static str, v: SqlValueRef<'_>) -> (r: Result<T, RowError>)
    ensures
        is_type_mismatch(r, column, expected@, v),
{
    Err(RowError::TypeMismatch { column, expected, found: v.variant_name(), row: None })
}

/// Decodes one value for a base SQL type into a field type `F`, keeping SQL
/// NULL as `None`.
pub trait LoadOpt<'a, F> {
    /// `r` is the decoding of `v` for column `column`.
    spec fn spec_loaded(v: SqlValueRef<'a>, column: &'static str, r: Result<Option<F>, RowError>) -> bool;

    /// `Ok(None)` for SQL NULL; the NOT NULL rule is applied by [`LoadField`].
    fn load_opt(v: SqlValueRef<'a>, column: &'static str) -> (r: Result<Option<F>, RowError>)
        ensures
            Self::spec_loaded(v, column, r),
    ;
}

/// Decodes one value for a declared SQL type into a field type `F`,
/// applying the NOT NULL rule.
pub trait LoadField<'a, F> {
    /// `r` is the decoding of `v` for column `column`.
    spec fn spec_loaded_field(v: SqlValueRef<'a>, column: &'static str, r: Result<F, RowError>) -> bool;

    /// Decodes, applying the NOT NULL rule.
    fn load_field(v: SqlValueRef<'a>, column: &'static str) -> (r: Result<F, RowError>)
        ensures
            Self::spec_loaded_field(v, column, r),
    ;
}

/// A non-nullable type: NULL is an error naming the column.
impl<'a, S: LoadOpt<'a, F>, F> LoadField<'a, F> for S {
    open spec fn spec_loaded_field(v: SqlValueRef<'a>, column: &'static str, r: Result<F, RowError>) -> bool {
        exists|opt: Result<Option<F>, RowError>|
            {
                &&& #[trigger] S::spec_loaded(v, column, opt)
                &&& match opt {
                    Ok(Some(f)) => r == Ok::<F, RowError>(f),
                    Ok(None) => r == Err::<F, RowError>(RowError::UnexpectedNull { column, row: None }),
                    Err(e) => r == Err::<F, RowError>(e),
                }
            }
    }

    fn load_field(v: SqlValueRef<'a>, column: &'static str) -> (r: Result<F, RowError>) {
        let opt = S::load_opt(v, column);
        let ghost g = opt;
        let r = match opt {
            Ok(Some(f)) => Ok(f),
            Ok(None) => Err(RowError::UnexpectedNull { column, row: None }),
            Err(e) => Err(e),
        };
        assert(S::spec_loaded(v, column, g));
        r
    }
}

/// A nullable type: NULL is `None`.
impl<'a, S: LoadOpt<'a, F>, F> LoadField<'a, Option<F>> for Nullable<S> {
    open spec fn spec_loaded_field(v: SqlValueRef<'a>, column: &'static str, r: Result<Option<F>, RowError>) -> bool {
        S::spec_loaded(v, column, r)
    }

    fn load_field(v: SqlValueRef<'a>, column: &'static str) -> (r: Result<Option<F>, RowError>) {
        S::load_opt(v, column)
    }
}

impl<'a> LoadOpt<'a, i64> for Integer {
    open spec fn spec_loaded(v: SqlValueRef<'a>, column: &'static str, r: Result<Option<i64>, RowError>) -> bool {
        match v {
            SqlValueRef::Null => r == Ok::<Option<i64>, RowError>(None),
            SqlValueRef::Integer(n) => r == Ok::<Option<i64>, RowError>(Some(n)),
            _ => is_type_mismatch(r, column, "INTEGER"@, v),
        }
    }

    fn load_opt(v: SqlValueRef<'a>, column: &'static str) -> (r: Result<Option<i64>, RowError>) {
        match v {
            SqlValueRef::Null => Ok(None),
            SqlValueRef::Integer(n) => Ok(Some(n)),
            other => mismatch(column, "INTEGER", other),
        }
    }
}

impl<'a> LoadOpt<'a, i32> for Integer {
    /// Narrowing is checked, never a cast.
    open spec fn spec_loaded(v: SqlValueRef<'a>, column: &'static str, r: Result<Option<i32>, RowError>) -> bool {
        match v {
            SqlValueRef::Null => r == Ok::<Option<i32>, RowError>(None),
            SqlValueRef::Integer(n) => if i32::MIN <= n <= i32::MAX {
                r == Ok::<Option<i32>, RowError>(Some(n as i32))
            } else {
                is_out_of_range(r, column, "i32"@, n)
            },
            _ => is_type_mismatch(r, column, "INTEGER"@, v),
        }
    }

    fn load_opt(v: SqlValueRef<'a>, column: &'static str) -> (r: Result<Option<i32>, RowError>) {
        match v {
            SqlValueRef::Null => Ok(None),
            SqlValueRef::Integer(n) => {
                if i32::MIN as i64 <= n && n <= i32::MAX as i64 {
                    Ok(Some(n as i32))
                } else {
                    Err(RowError::OutOfRange { column, target: "i32", value: SqlValue::Integer(n), row: None })
                }
            },
            other => mismatch(column, "INTEGER", other),
        }
    }
}

impl<'a> LoadOpt<'a, bool> for Boolean {
    /// Only 0 and 1 are booleans; any other integer is out of range, not TRUE.
    open spec fn spec_loaded(v: SqlValueRef<'a>, column: &'static str, r: Result<Option<bool>, RowError>) -> bool {
        match v {
            SqlValueRef::Null => r == Ok::<Option<bool>, RowError>(None),
            SqlValueRef::Integer(n) => if n == 0 {
                r == Ok::<Option<bool>, RowError>(Some(false))
            } else if n == 1 {
                r == Ok::<Option<bool>, RowError>(Some(true))
            } else {
                is_out_of_range(r, column, "bool"@, n)
            },
            _ => is_type_mismatch(r, column, "BOOLEAN"@, v),
        }
    }

    fn load_opt(v: SqlValueRef<'a>, column: &'static str) -> (r: Result<Option<bool>, RowError>) {
        match v {
            SqlValueRef::Null => Ok(None),
            SqlValueRef::Integer(0) => Ok(Some(false)),
            SqlValueRef::Integer(1) => Ok(Some(true)),
            SqlValueRef::Integer(n) => Err(
                RowError::OutOfRange { column, target: "bool", value: SqlValue::Integer(n), row: None },
            ),
            other => mismatch(column, "BOOLEAN", other),
        }
    }
}

impl<'a> LoadOpt<'a, String> for Text {
    open spec fn spec_loaded(v: SqlValueRef<'a>, column: &'static str, r: Result<Option<String>, RowError>) -> bool {
        match v {
            SqlValueRef::Null => r == Ok::<Option<String>, RowError>(None),
            SqlValueRef::Text(s) => match r {
                Ok(Some(t)) => t@ == s@,
                _ => false,
            },
            _ => is_type_mismatch(r, column, "TEXT"@, v),
        }
    }

    fn load_opt(v: SqlValueRef<'a>, column: &'static str) -> (r: Result<Option<String>, RowError>) {
        match v {
            SqlValueRef::Null => Ok(None),
            SqlValueRef::Text(s) => Ok(Some(s.to_owned())),
            other => mismatch(column, "TEXT", other),
        }
    }
}

impl<'a> LoadOpt<'a, &'a str> for Text {
    /// Borrowed straight from the row buffer.
    open spec fn spec_loaded(v: SqlValueRef<'a>, column: &'static str, r: Result<Option<&'a str>, RowError>) -> bool {
        match v {
            SqlValueRef::Null => r == Ok::<Option<&'a str>, RowError>(None),
            SqlValueRef::Text(s) => r == Ok::<Option<&'a str>, RowError>(Some(s)),
            _ => is_type_mismatch(r, column, "TEXT"@, v),
        }
    }

    fn load_opt(v: SqlValueRef<'a>, column: &'static str) -> (r: Result<Option<&'a str>, RowError>) {
        match v {
            SqlValueRef::Null => Ok(None),
            SqlValueRef::Text(s) => Ok(Some(s)),
            other => mismatch(column, "TEXT", other),
        }
    }
}

/// A type that can be built from one row of a result set.
pub trait FromRow: Sized {
    /// The declared column names, in declaration order.
    const COLUMNS: &'static [&'static str];

    /// Matches the declared columns against a result set. Done once per
    /// statement, not once per row.
    fn resolve<C: ColumnSet + ?Sized>(cols: &C) -> (r: Result<Layout<Self>, RowError>)
        ensures
            resolution(cols, Self::COLUMNS@, r),
    {
        resolve_by_name(cols, Self::COLUMNS)
    }

    /// Builds one value, using a layout resolved for this same shape.
    fn from_row<'a, R: RowSource<'a> + ?Sized>(row: &R, layout: &Layout<Self>) -> Result<Self, RowError>;
}

/// Loading a value gives back what the column held: an integer as itself
/// (narrowed to `i32` only when it fits, else an error), 0 and 1 as
/// `false` and `true` and any other integer as an error, text as the same
/// characters, and a blob, for these types, as an error. NULL is `None`
/// for a `Nullable` column and, for any other, the error that names the
/// column.
pub proof fn lemma_loads_what_was_held<'a>(
    n: i64,
    s: &'a str,
    b: &'a [u8],
    c: &'static str,
    ri: Result<i64, RowError>,
    rn: Result<Option<i64>, RowError>,
    rw: Result<i32, RowError>,
    rb: Result<bool, RowError>,
    rs: Result<String, RowError>,
    rt: Result<&'a str, RowError>,
)
    ensures
        <Integer as LoadField<'a, i64>>::spec_loaded_field(SqlValueRef::Integer(n), c, ri) ==> ri == Ok::<i64, RowError>(n),
        <Integer as LoadField<'a, i64>>::spec_loaded_field(SqlValueRef::Null, c, ri) ==> ri == Err::<i64, RowError>(
            RowError::UnexpectedNull { column: c, row: None },
        ),
        <Integer as LoadField<'a, i64>>::spec_loaded_field(SqlValueRef::Text(s), c, ri) ==> ri is Err,
        <Nullable<Integer> as LoadField<'a, Option<i64>>>::spec_loaded_field(SqlValueRef::Null, c, rn) ==> rn == Ok::<
            Option<i64>,
            RowError,
        >(None),
        <Nullable<Integer> as LoadField<'a, Option<i64>>>::spec_loaded_field(SqlValueRef::Integer(n), c, rn) ==> rn == Ok::<
            Option<i64>,
            RowError,
        >(Some(n)),
        <Integer as LoadField<'a, i32>>::spec_loaded_field(SqlValueRef::Integer(n), c, rw) ==> match rw {
            Ok(x) => x == n,
            Err(_) => n < i32::MIN || n > i32::MAX,
        },
        <Boolean as LoadField<'a, bool>>::spec_loaded_field(SqlValueRef::Integer(n), c, rb) ==> match rb {
            Ok(x) => (n == 0 && !x) || (n == 1 && x),
            Err(_) => n != 0 && n != 1,
        },
        <Text as LoadField<'a, String>>::spec_loaded_field(SqlValueRef::Text(s), c, rs) ==> (rs matches Ok(t) && t@ == s@),
        <Text as LoadField<'a, String>>::spec_loaded_field(SqlValueRef::Blob(b), c, rs) ==> rs is Err,
        <Text as LoadField<'a, &'a str>>::spec_loaded_field(SqlValueRef::Text(s), c, rt) ==> rt == Ok::<&'a str, RowError>(s),
{
}

} // verus!
