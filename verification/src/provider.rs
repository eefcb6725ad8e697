//! What a database provider hands the library and takes back from it: a
//! result-set row as plain values, and the SQL of a row count.
use vstd::prelude::*;

use crate::decimal::{decimal, push_decimal};
use crate::from_row::{with_row, ColumnSet, RowError, RowSource, SqlValueRef};
use vstd::string::StringExecFns;

verus! {

/// The message for a read past the last column: the driver's own wording,
/// then the index.
pub open spec fn invalid_index_message(past_end: Seq<char>, at: nat) -> Seq<char> {
    past_end + decimal(at)
}

/// One row of a result set as plain values: the names of the result set's
/// columns (a column may have none) and, for each column, its value or the driver's description of
/// why it could not be read.
pub struct ValueRow<'n, 'a> {
    names: &'n Vec<Option<String>>,
    values: Vec<Result<SqlValueRef<'a>, String>>,
    past_end: String,
}

impl<'n, 'a> ValueRow<'n, 'a> {
    /// The column names.
    pub closed spec fn spec_names(&self) -> Seq<Option<String>> {
        self.names@
    }

    /// The values, one per column.
    pub closed spec fn spec_values(&self) -> Seq<Result<SqlValueRef<'a>, String>> {
        self.values@
    }

    /// The driver's wording for a read past the last column, before the
    /// index.
    pub closed spec fn spec_past_end(&self) -> Seq<char> {
        self.past_end@
    }

    /// A row of `values` under the column names `names`; a read past the
    /// last column fails with `past_end` followed by the index, as the
    /// driver words it.
    pub fn new(names: &'n Vec<Option<String>>, values: Vec<Result<SqlValueRef<'a>, String>>, past_end: &str) -> (r: Self)
        ensures
            r.spec_names() == names@,
            r.spec_values() == values@,
            r.spec_past_end() == past_end@,
    {
        ValueRow { names, values, past_end: past_end.to_string() }
    }
}

impl<'n, 'a> ColumnSet for ValueRow<'n, 'a> {
    open spec fn spec_count(&self) -> nat {
        self.spec_values().len()
    }

    open spec fn spec_name_at(&self, at: int) -> Option<Seq<char>> {
        if 0 <= at < self.spec_names().len() {
            match self.spec_names()[at] {
                Some(name) => Some(name@),
                None => None,
            }
        } else {
            None
        }
    }

    fn column_count(&self) -> (r: usize) {
        self.values.len()
    }

    fn column_name_at(&self, at: usize) -> (r: Option<&str>) {
        if at < self.names.len() {
            match &self.names[at] {
                Some(name) => Some(name.as_str()),
                None => None,
            }
        } else {
            None
        }
    }
}

impl<'n, 'a> RowSource<'a> for ValueRow<'n, 'a> {
    fn value_at(&self, at: usize, column: &'static str) -> (r: Result<SqlValueRef<'a>, RowError>)
        ensures
            at < self.spec_values().len() ==> match self.spec_values()[at as int] {
                Ok(v) => r == Ok::<SqlValueRef<'a>, RowError>(v),
                Err(m) => (r matches Err(RowError::Driver { column: c, message }) && c == Some(column) && message@ == m@),
            },
            at >= self.spec_values().len() ==> (r matches Err(RowError::Driver { column: c, message }) && c == Some(
                column,
            ) && message@ == invalid_index_message(self.spec_past_end(), at as nat)),
    {
        if at < self.values.len() {
            match &self.values[at] {
                Ok(v) => Ok(*v),
                Err(m) => Err(RowError::Driver { column: Some(column), message: m.clone() }),
            }
        } else {
            let mut message = self.past_end.clone();
            push_decimal(&mut message, at as u64);
            Err(RowError::Driver { column: Some(column), message })
        }
    }
}

/// The rows a fetch has materialised so far. The driver hands each row's
/// outcome to [`Fetched::accept`]; the first row that fails ends the fetch,
/// named by its ordinal.
pub struct Fetched<E> {
    rows: Vec<E>,
}

impl<E> Fetched<E> {
    /// The rows materialised so far, in result-set order.
    pub closed spec fn spec_rows(&self) -> Seq<E> {
        self.rows@
    }

    /// A fetch with no row yet.
    pub fn new() -> (r: Self)
        ensures
            r.spec_rows() == Seq::<E>::empty(),
    {
        Fetched { rows: Vec::new() }
    }

    /// Takes the outcome of materialising the next row. A row is kept and
    /// the fetch goes on (`Ok`); a failure stops it (`Err`), with the row's
    /// ordinal, how many rows came before it, attached.
    pub fn accept(&mut self, outcome: Result<E, RowError>) -> (r: Result<(), RowError>)
        ensures
            match outcome {
                Ok(row) => r is Ok && final(self).spec_rows() == old(self).spec_rows().push(row),
                Err(e) => r == Err::<(), RowError>(with_row(e, old(self).spec_rows().len() as usize))
                    && final(self).spec_rows() == old(self).spec_rows(),
            },
    {
        match outcome {
            Ok(row) => {
                self.rows.push(row);
                Ok(())
            },
            Err(e) => Err(e.at_row(self.rows.len())),
        }
    }

    /// The rows materialised.
    pub fn into_rows(self) -> (r: Vec<E>)
        ensures
            r@ == self.spec_rows(),
    {
        self.rows
    }
}

/// The SQL that counts the rows a query returns: the query wrapped, not
/// rewritten, so its `LIMIT`, `OFFSET`, `GROUP BY` and joins still apply.
pub fn count_sql(inner: &str) -> (r: String)
    ensures
        r@ == "SELECT COUNT(*) FROM ("@ + inner@ + ")"@,
{
    let mut s = String::from_str("SELECT COUNT(*) FROM (");
    s.append(inner);
    s.append(")");
    proof {
        reveal_strlit("SELECT COUNT(*) FROM (");
        reveal_strlit(")");
    }
    s
}

} // verus!
