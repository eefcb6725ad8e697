//! A LINQ-style query library: sequence operators over vectors, grouping,
//! lookups, ordering, and a typed SQL expression layer with its in-memory
//! interpretation.
use vstd::prelude::*;

pub mod decimal;
pub mod error;
pub mod eval;
pub mod expr;
pub mod from_row;
pub mod grouping;
pub mod keyed;
pub mod key_laws;
pub mod like;
pub mod logic_laws;
pub mod lookup;
pub mod ordered;
pub mod provider;
pub mod queryable;
pub mod adaptors;
pub mod boxed;
pub mod compare;
pub mod comparisons;
pub mod repr;
pub mod rows;
pub mod sortable;
pub mod sources;
pub mod sql_types;
pub mod statement;
pub mod stream;
pub mod summable;
pub mod tri;
pub mod value;
pub mod window;

pub use error::SingleError;
pub use lookup::Lookup;
pub use ordered::{OrderedQueryable, ThenBy};
pub use grouping::Grouping;
pub use queryable::LinqExt;
pub use sources::{empty, range, repeat};

verus! {

} // verus!
