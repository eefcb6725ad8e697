//! SQL type tags: zero-sized marker types that record, at the type level,
//! which SQL type a column or expression has, and whether it may be NULL.
use vstd::prelude::*;

use core::marker::PhantomData;

verus! {

/// Marker for SQL `INTEGER` columns.
#[derive(Debug, Clone, Copy, PartialEq, Eq, Structural)]
pub struct Integer;

/// Marker for SQL `TEXT` / `VARCHAR` columns.
#[derive(Debug, Clone, Copy, PartialEq, Eq, Structural)]
pub struct Text;

/// Marker for SQL `BOOLEAN` columns.
#[derive(Debug, Clone, Copy, PartialEq, Eq, Structural)]
pub struct Boolean;

/// Marker for SQL `REAL` / `DOUBLE` columns.
#[derive(Debug, Clone, Copy, PartialEq, Eq, Structural)]
pub struct Float;

/// Implemented by the SQL type markers of this crate only.
pub trait Sealed {}

impl Sealed for Integer {}

impl Sealed for Text {}

impl Sealed for Boolean {}

impl Sealed for Float {}

/// Every SQL type marker.
pub trait SqlType: Sealed {
    /// The SQL keyword for this type (e.g. `"INTEGER"`).
    const SQL_KEYWORD: &'static str;
}

impl SqlType for Integer {
    const SQL_KEYWORD: &'static str = "INTEGER";
}

impl SqlType for Text {
    const SQL_KEYWORD: &'static str = "TEXT";
}

impl SqlType for Boolean {
    const SQL_KEYWORD: &'static str = "BOOLEAN";
}

impl SqlType for Float {
    const SQL_KEYWORD: &'static str = "REAL";
}

/// Marker for a column or expression of SQL type `T` that may be `NULL`.
///
/// `Nullable<Text>` is a different SQL type from `Text`: a comparison that
/// touches it yields `Nullable<Boolean>`, so three-valued logic applies.
pub struct Nullable<T>(PhantomData<T>);

impl<T: SqlType> Sealed for Nullable<T> {}

impl<T: SqlType> SqlType for Nullable<T> {
    const SQL_KEYWORD: &'static str = T::SQL_KEYWORD;
}

/// The non-nullable type underneath: `Integer` and `Nullable<Integer>` both
/// have base `Integer`.
pub trait Family {
    /// The non-nullable marker underneath.
    type Base;
}

/// The SQL type of a comparison: `Boolean` when neither side is nullable,
/// `Nullable<Boolean>` when either is. Only types of one family compare.
pub trait CompareWith<Rhs> {
    /// `Boolean` or `Nullable<Boolean>`.
    type Out;
}

/// The SQL type of `AND` / `OR`, by the rule of [`CompareWith`], over the
/// boolean family only.
pub trait LogicWith<Rhs> {
    /// `Boolean` or `Nullable<Boolean>`.
    type Out;
}

/// The SQL type of `NOT`: nullability passes through.
pub trait Negate {
    /// `Boolean` or `Nullable<Boolean>`.
    type Out;
}

/// SQL types that may stand as a `WHERE` clause: `Boolean` and
/// `Nullable<Boolean>`. A `WHERE` clause keeps a row when the predicate is
/// TRUE; FALSE and NULL both drop it.
pub trait WhereClause {}

impl WhereClause for Boolean {}

impl WhereClause for Nullable<Boolean> {}

impl Family for Integer {
    type Base = Integer;
}

impl Family for Nullable<Integer> {
    type Base = Integer;
}

impl Family for Text {
    type Base = Text;
}

impl Family for Nullable<Text> {
    type Base = Text;
}

impl Family for Boolean {
    type Base = Boolean;
}

impl Family for Nullable<Boolean> {
    type Base = Boolean;
}

impl Family for Float {
    type Base = Float;
}

impl Family for Nullable<Float> {
    type Base = Float;
}

impl CompareWith<Integer> for Integer {
    type Out = Boolean;
}

impl CompareWith<Nullable<Integer>> for Integer {
    type Out = Nullable<Boolean>;
}

impl CompareWith<Integer> for Nullable<Integer> {
    type Out = Nullable<Boolean>;
}

impl CompareWith<Nullable<Integer>> for Nullable<Integer> {
    type Out = Nullable<Boolean>;
}

impl CompareWith<Text> for Text {
    type Out = Boolean;
}

impl CompareWith<Nullable<Text>> for Text {
    type Out = Nullable<Boolean>;
}

impl CompareWith<Text> for Nullable<Text> {
    type Out = Nullable<Boolean>;
}

impl CompareWith<Nullable<Text>> for Nullable<Text> {
    type Out = Nullable<Boolean>;
}

impl CompareWith<Boolean> for Boolean {
    type Out = Boolean;
}

impl CompareWith<Nullable<Boolean>> for Boolean {
    type Out = Nullable<Boolean>;
}

impl CompareWith<Boolean> for Nullable<Boolean> {
    type Out = Nullable<Boolean>;
}

impl CompareWith<Nullable<Boolean>> for Nullable<Boolean> {
    type Out = Nullable<Boolean>;
}

impl CompareWith<Float> for Float {
    type Out = Boolean;
}

impl CompareWith<Nullable<Float>> for Float {
    type Out = Nullable<Boolean>;
}

impl CompareWith<Float> for Nullable<Float> {
    type Out = Nullable<Boolean>;
}

impl CompareWith<Nullable<Float>> for Nullable<Float> {
    type Out = Nullable<Boolean>;
}

impl LogicWith<Boolean> for Boolean {
    type Out = Boolean;
}

impl LogicWith<Nullable<Boolean>> for Boolean {
    type Out = Nullable<Boolean>;
}

impl LogicWith<Boolean> for Nullable<Boolean> {
    type Out = Nullable<Boolean>;
}

impl LogicWith<Nullable<Boolean>> for Nullable<Boolean> {
    type Out = Nullable<Boolean>;
}

impl Negate for Boolean {
    type Out = Boolean;
}

impl Negate for Nullable<Boolean> {
    type Out = Nullable<Boolean>;
}

} // verus!
