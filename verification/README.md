# linq_rs

C#-LINQ-style query operators over vectors, with grouping, lookups and stable
multi-key ordering, and a typed SQL expression layer whose query values are
interpreted twice: as a SQL statement with bound parameters, and as evaluation
over rows in memory (three-valued, as SQL evaluates it).

The functions in `src/` are verified with Verus against their contracts,
except one trusted wrapper around `format!("{:?}")` for quoting text.

## Layout

- `src/queryable.rs`: the `LinqExt` operators; `src/adaptors.rs`: the
  one-at-a-time adaptors; `src/grouping.rs`, `src/lookup.rs`, `src/keyed.rs`:
  grouping, one-to-many lookups and their specifications; `src/ordered.rs`:
  stable sorting by one or more keys; `src/summable.rs`: integer sums.
- `src/expr.rs`, `src/eval.rs`, `src/tri.rs`, `src/like.rs`, `src/compare.rs`:
  SQL expressions, their text, and their three-valued evaluation.
- `src/rows.rs`, `src/boxed.rs`, `src/window.rs`, `src/statement.rs`,
  `src/stream.rs`: query values (typed and type-erased), their SQL
  statement, and their in-memory interpretation over slices or over row
  sources pulled one row at a time (endless ones included).
- `src/from_row.rs`, `src/provider.rs`, `src/value.rs`: decoding result-set
  rows into Rust values, with column resolution by name.
- `app/`: the SQLite driver (through `rusqlite`), which runs a query's SQL
  and hands the rows to the library.
- `tests/`: the test suites.
