//! The full `SELECT` statement of a query: its table, select list, `WHERE`,
//! `ORDER BY`, `LIMIT` and `OFFSET` clauses, with the bound values.
use vstd::prelude::*;

use crate::decimal::{decimal, push_decimal};
use crate::rows::OrderPart;
use crate::value::SqlValue;
use vstd::string::StringExecFns;

verus! {

/// A table's name and the select list its queries use (`*`, or the
/// columns named one by one).
pub trait Table {
    /// The table's name. An implementation outside this crate that does
    /// not define it leaves it unknown.
    open spec fn spec_name() -> Seq<char> {
        arbitrary()
    }

    /// The select list (left unknown by an implementation that does not
    /// define it).
    open spec fn spec_columns() -> Seq<char> {
        arbitrary()
    }

    /// The table's name.
    fn name() -> (r: &'static str)
        ensures
            r@ == Self::spec_name(),
    ;

    /// The select list.
    fn columns() -> (r: &'static str)
        ensures
            r@ == Self::spec_columns(),
    ;
}

/// A rendered query: SQL text and the values bound to its placeholders.
#[derive(Debug, Clone, PartialEq)]
pub struct QueryOutput {
    /// The SQL text, with `?` placeholders.
    pub sql: String,
    /// The bound values, in placeholder order.
    pub params: Vec<SqlValue>,
}

/// One `ORDER BY` item: the column, then ` DESC` when descending.
pub open spec fn order_item_sql(column: Seq<char>, desc: bool) -> Seq<char> {
    if desc {
        column + " DESC"@
    } else {
        column
    }
}

/// The `ORDER BY` items of `parts`, in order.
pub open spec fn order_sqls<Row>(parts: Seq<OrderPart<Row>>) -> Seq<Seq<char>> {
    parts.map_values(|p: OrderPart<Row>| p.spec_sql())
}

/// `parts` joined with `sep` between neighbours.
pub open spec fn joined(parts: Seq<Seq<char>>, sep: Seq<char>) -> Seq<char>
    decreases parts.len(),
{
    if parts.len() == 0 {
        Seq::empty()
    } else if parts.len() == 1 {
        parts[0]
    } else {
        joined(parts.drop_last(), sep) + sep + parts.last()
    }
}

/// `SELECT <columns> FROM <table>`, then ` WHERE <w>` when there is a
/// `WHERE` text, ` ORDER BY ` and the items joined by `, ` when there are
/// any, ` LIMIT n` and ` OFFSET m` when they are set.
pub open spec fn select_sql(
    table: Seq<char>,
    columns: Seq<char>,
    where_part: Option<Seq<char>>,
    orders: Seq<Seq<char>>,
    limit: Option<u64>,
    offset: Option<u64>,
) -> Seq<char> {
    "SELECT "@ + columns + " FROM "@ + table + match where_part {
        Some(w) => " WHERE "@ + w,
        None => Seq::empty(),
    } + if orders.len() > 0 {
        " ORDER BY "@ + joined(orders, ", "@)
    } else {
        Seq::empty()
    } + match limit {
        Some(n) => " LIMIT "@ + decimal(n as nat),
        None => Seq::empty(),
    } + match offset {
        Some(n) => " OFFSET "@ + decimal(n as nat),
        None => Seq::empty(),
    }
}

/// Renders the statement [`select_sql`] describes.
pub(crate) fn render_select<Row>(
    table: &str,
    columns: &str,
    where_part: Option<&str>,
    orders: &[OrderPart<Row>],
    limit: Option<u64>,
    offset: Option<u64>,
) -> (r: String)
    ensures
        r@ == select_sql(
            table@,
            columns@,
            match where_part {
                Some(w) => Some(w@),
                None => None,
            },
            order_sqls(orders@),
            limit,
            offset,
        ),
{
    let mut s = String::from_str("SELECT ");
    s.append(columns);
    s.append(" FROM ");
    s.append(table);
    let ghost head = s@;
    match where_part {
        Some(w) => {
            s.append(" WHERE ");
            s.append(w);
        },
        None => {},
    }
    let ghost with_where = s@;
    let ghost items = order_sqls(orders@);
    if orders.len() > 0 {
        s.append(" ORDER BY ");
        let ghost start = s@;
        let mut i: usize = 0;
        while i < orders.len()
            invariant
                i <= orders@.len(),
                items == order_sqls(orders@),
                s@ == start + joined(items.take(i as int), ", "@),
            decreases orders@.len() - i,
        {
            let ghost before = s@;
            if i > 0 {
                s.append(", ");
            }
            s.append(orders[i].sql_text());
            proof {
                let t = items.take(i + 1);
                assert(t.drop_last() =~= items.take(i as int));
                assert(t.last() == orders@[i as int].spec_sql());
                if i == 0 {
                    assert(t.len() == 1);
                    assert(joined(items.take(0), ", "@) =~= Seq::<char>::empty());
                    assert(s@ =~= start + joined(t, ", "@));
                } else {
                    assert(s@ =~= start + joined(t, ", "@));
                }
            }
            i = i + 1;
        }
        proof {
            assert(items.take(orders@.len() as int) =~= items);
        }
    }
    let ghost with_order = s@;
    match limit {
        Some(n) => {
            s.append(" LIMIT ");
            push_decimal(&mut s, n);
        },
        None => {},
    }
    match offset {
        Some(n) => {
            s.append(" OFFSET ");
            push_decimal(&mut s, n);
        },
        None => {},
    }
    proof {
        assert(s@ =~= select_sql(
            table@,
            columns@,
            match where_part {
                Some(w) => Some(w@),
                None => None,
            },
            order_sqls(orders@),
            limit,
            offset,
        ));
    }
    s
}

} // verus!
