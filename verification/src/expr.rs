//! The SQL expression tree. Every node carries an SQL type so mismatched
//! comparisons do not compile, and renders itself into a SQL buffer plus a
//! list of bound parameters: every literal becomes a `?` placeholder and its
//! value a parameter; nothing user-supplied is spliced into the SQL text.
use vstd::prelude::*;

use core::marker::PhantomData;
use crate::sql_types::{Boolean, CompareWith, Family, Integer, LogicWith, Negate, Nullable, SqlType, Text};
use crate::value::SqlValue;
use vstd::string::StringExecFns;

verus! {

// ═══════════════════════════════════════════════════════════════════════
// Parameter views
// ═══════════════════════════════════════════════════════════════════════

/// What a bound parameter holds, with text as characters.
pub enum ParamView {
    /// An integer.
    Integer(i64),
    /// A text.
    Text(Seq<char>),
    /// A boolean.
    Boolean(bool),
    /// NULL.
    Null,
}

/// What a bound parameter holds.
pub open spec fn param_view(v: SqlValue) -> ParamView {
    match v {
        SqlValue::Integer(n) => ParamView::Integer(n),
        SqlValue::Text(t) => ParamView::Text(t@),
        SqlValue::Boolean(b) => ParamView::Boolean(b),
        SqlValue::Null => ParamView::Null,
    }
}

/// What a list of bound parameters holds.
pub open spec fn param_views(ps: Seq<SqlValue>) -> Seq<ParamView> {
    ps.map_values(|v: SqlValue| param_view(v))
}

/// How many `?` placeholders `s` holds.
pub open spec fn placeholders(s: Seq<char>) -> nat
    decreases s.len(),
{
    if s.len() == 0 {
        0
    } else {
        placeholders(s.drop_last()) + if s.last() == '?' { 1nat } else { 0nat }
    }
}

/// Placeholders of a concatenation add up.
pub proof fn lemma_placeholders_concat(a: Seq<char>, b: Seq<char>)
    ensures
        placeholders(a + b) == placeholders(a) + placeholders(b),
    decreases b.len(),
{
    if b.len() > 0 {
        lemma_placeholders_concat(a, b.drop_last());
        assert((a + b).drop_last() =~= a + b.drop_last());
    } else {
        assert(a + b =~= a);
    }
}

/// A copy of a value, holding the same thing.
pub fn copy_value(v: &SqlValue) -> (r: SqlValue)
    ensures
        param_view(r) == param_view(*v),
{
    match v {
        SqlValue::Integer(n) => SqlValue::Integer(*n),
        SqlValue::Text(t) => SqlValue::Text(t.clone()),
        SqlValue::Boolean(b) => SqlValue::Boolean(*b),
        SqlValue::Null => SqlValue::Null,
    }
}

/// Appends one placeholder and binds `v` to it.
fn bind_one(sql: &mut String, params: &mut Vec<SqlValue>, v: SqlValue)
    ensures
        final(sql)@ == old(sql)@ + "?"@,
        param_views(final(params)@) == param_views(old(params)@).push(param_view(v)),
{
    sql.append("?");
    let ghost before = params@;
    params.push(v);
    assert(param_views(params@) =~= param_views(before).push(param_view(v)));
}

// ═══════════════════════════════════════════════════════════════════════
// Expr
// ═══════════════════════════════════════════════════════════════════════

/// A typed SQL expression: columns, literals, and the nodes built from them.
pub trait Expr {
    /// The SQL type of this expression.
    type SqlType;

    /// The SQL text this expression renders to. Every implementation in
    /// this crate defines it; one that does not leaves it unknown, and
    /// nothing about its rendering is then proved.
    open spec fn spec_sql(&self) -> Seq<char> {
        arbitrary()
    }

    /// The parameters this expression binds, in placeholder order (left
    /// unknown by an implementation that does not define it).
    open spec fn spec_params(&self) -> Seq<ParamView> {
        arbitrary()
    }

    /// Appends this expression's SQL to `sql` and its bound values to `params`.
    fn write_to(&self, sql: &mut String, params: &mut Vec<SqlValue>)
        ensures
            final(sql)@ == old(sql)@ + self.spec_sql(),
            param_views(final(params)@) == param_views(old(params)@) + self.spec_params(),
    ;
}

/// An expression whose rendering binds one parameter per `?` placeholder.
pub trait ExprLaws: Expr {
    /// Each bound parameter has its own placeholder in the text.
    proof fn lemma_placeholders(&self)
        ensures
            placeholders(self.spec_sql()) == self.spec_params().len(),
    ;
}

/// One placeholder.
proof fn lemma_one_placeholder()
    ensures
        placeholders("?"@) == 1,
{
    reveal_strlit("?");
    let q = "?"@;
    assert(q =~= seq!['?']);
    assert(q.drop_last() =~= Seq::<char>::empty());
    assert(placeholders(q.drop_last()) == 0);
    assert(q.last() == '?');
}

impl Expr for i32 {
    type SqlType = Integer;

    open spec fn spec_sql(&self) -> Seq<char> {
        "?"@
    }

    open spec fn spec_params(&self) -> Seq<ParamView> {
        seq![ParamView::Integer(*self as i64)]
    }

    fn write_to(&self, sql: &mut String, params: &mut Vec<SqlValue>) {
        bind_one(sql, params, SqlValue::Integer(*self as i64));
    }
}

impl ExprLaws for i32 {
    proof fn lemma_placeholders(&self) {
        lemma_one_placeholder();
    }
}

impl Expr for i64 {
    type SqlType = Integer;

    open spec fn spec_sql(&self) -> Seq<char> {
        "?"@
    }

    open spec fn spec_params(&self) -> Seq<ParamView> {
        seq![ParamView::Integer(*self)]
    }

    fn write_to(&self, sql: &mut String, params: &mut Vec<SqlValue>) {
        bind_one(sql, params, SqlValue::Integer(*self));
    }
}

impl ExprLaws for i64 {
    proof fn lemma_placeholders(&self) {
        lemma_one_placeholder();
    }
}

impl Expr for bool {
    type SqlType = Boolean;

    open spec fn spec_sql(&self) -> Seq<char> {
        "?"@
    }

    open spec fn spec_params(&self) -> Seq<ParamView> {
        seq![ParamView::Boolean(*self)]
    }

    fn write_to(&self, sql: &mut String, params: &mut Vec<SqlValue>) {
        bind_one(sql, params, SqlValue::Boolean(*self));
    }
}

impl ExprLaws for bool {
    proof fn lemma_placeholders(&self) {
        lemma_one_placeholder();
    }
}

impl Expr for String {
    type SqlType = Text;

    open spec fn spec_sql(&self) -> Seq<char> {
        "?"@
    }

    open spec fn spec_params(&self) -> Seq<ParamView> {
        seq![ParamView::Text(self@)]
    }

    fn write_to(&self, sql: &mut String, params: &mut Vec<SqlValue>) {
        bind_one(sql, params, SqlValue::Text(self.clone()));
    }
}

impl ExprLaws for String {
    proof fn lemma_placeholders(&self) {
        lemma_one_placeholder();
    }
}

impl<'a> Expr for &'a str {
    type SqlType = Text;

    open spec fn spec_sql(&self) -> Seq<char> {
        "?"@
    }

    open spec fn spec_params(&self) -> Seq<ParamView> {
        seq![ParamView::Text((*self)@)]
    }

    fn write_to(&self, sql: &mut String, params: &mut Vec<SqlValue>) {
        bind_one(sql, params, SqlValue::Text((*self).to_owned()));
    }
}

impl<'a> ExprLaws for &'a str {
    proof fn lemma_placeholders(&self) {
        lemma_one_placeholder();
    }
}

// ═══════════════════════════════════════════════════════════════════════
// Explicit literals
// ═══════════════════════════════════════════════════════════════════════

/// A literal carrying its SQL type explicitly, for when type inference
/// cannot pick the right primitive.
pub struct Lit<T> {
    value: SqlValue,
    _ty: PhantomData<T>,
}

/// `None` is the SQL `NULL` literal of a nullable type; `Some(v)` is `v`,
/// typed nullable.
impl<T: Expr> Expr for Option<T> {
    type SqlType = Nullable<T::SqlType>;

    open spec fn spec_sql(&self) -> Seq<char> {
        match self {
            Some(v) => v.spec_sql(),
            None => "?"@,
        }
    }

    open spec fn spec_params(&self) -> Seq<ParamView> {
        match self {
            Some(v) => v.spec_params(),
            None => seq![ParamView::Null],
        }
    }

    fn write_to(&self, sql: &mut String, params: &mut Vec<SqlValue>) {
        match self {
            Some(v) => v.write_to(sql, params),
            None => {
                bind_one(sql, params, SqlValue::Null);
                assert(param_views(params@) =~= param_views(old(params)@) + seq![ParamView::Null]);
            },
        }
    }
}

impl<T: ExprLaws> ExprLaws for Option<T> {
    proof fn lemma_placeholders(&self) {
        match self {
            Some(v) => v.lemma_placeholders(),
            None => lemma_one_placeholder(),
        }
    }
}

impl<T> Lit<T> {
    /// The value this literal binds.
    pub closed spec fn spec_value(&self) -> ParamView {
        param_view(self.value)
    }
}

impl<T: SqlType> Lit<T> {
    /// Wraps a raw value with a SQL-type tag.
    pub fn from_raw(value: SqlValue) -> (r: Self)
        ensures
            r.spec_value() == param_view(value),
    {
        Lit { value, _ty: PhantomData }
    }
}

impl Lit<Integer> {
    /// An integer literal.
    pub fn integer(value: i64) -> (r: Self)
        ensures
            r.spec_value() == ParamView::Integer(value),
    {
        Self::from_raw(SqlValue::Integer(value))
    }
}

impl Lit<Text> {
    /// A text literal.
    pub fn text(value: String) -> (r: Self)
        ensures
            r.spec_value() == ParamView::Text(value@),
    {
        Self::from_raw(SqlValue::Text(value))
    }
}

impl Lit<Boolean> {
    /// A boolean literal.
    pub fn boolean(value: bool) -> (r: Self)
        ensures
            r.spec_value() == ParamView::Boolean(value),
    {
        Self::from_raw(SqlValue::Boolean(value))
    }
}

impl<T: SqlType> Expr for Lit<T> {
    type SqlType = T;

    open spec fn spec_sql(&self) -> Seq<char> {
        "?"@
    }

    open spec fn spec_params(&self) -> Seq<ParamView> {
        seq![self.spec_value()]
    }

    fn write_to(&self, sql: &mut String, params: &mut Vec<SqlValue>) {
        bind_one(sql, params, copy_value(&self.value));
    }
}

impl<T: SqlType> ExprLaws for Lit<T> {
    proof fn lemma_placeholders(&self) {
        lemma_one_placeholder();
    }
}

// ═══════════════════════════════════════════════════════════════════════
// Nodes
// ═══════════════════════════════════════════════════════════════════════

/// A text with no `?` holds no placeholder.
pub proof fn lemma_no_placeholders(s: Seq<char>)
    requires
        forall|i: int| 0 <= i < s.len() ==> s[i] != '?',
    ensures
        placeholders(s) == 0,
    decreases s.len(),
{
    if s.len() > 0 {
        lemma_no_placeholders(s.drop_last());
    }
}

/// The text of a binary node: `(left SEP right)`.
pub open spec fn binary_sql(left: Seq<char>, sep: Seq<char>, right: Seq<char>) -> Seq<char> {
    "("@ + left + sep + right + ")"@
}

/// The placeholders of a binary node are those of its operands.
proof fn lemma_binary_placeholders(left: Seq<char>, sep: Seq<char>, right: Seq<char>)
    requires
        placeholders(sep) == 0,
    ensures
        placeholders(binary_sql(left, sep, right)) == placeholders(left) + placeholders(right),
{
    reveal_strlit("(");
    reveal_strlit(")");
    lemma_no_placeholders("("@);
    lemma_no_placeholders(")"@);
    lemma_placeholders_concat("("@, left);
    lemma_placeholders_concat("("@ + left, sep);
    lemma_placeholders_concat("("@ + left + sep, right);
    lemma_placeholders_concat("("@ + left + sep + right, ")"@);
}

/// Renders `(left SEP right)`.
fn write_binary<L: Expr, R: Expr>(left: &L, sep: &str, right: &R, sql: &mut String, params: &mut Vec<SqlValue>)
    ensures
        final(sql)@ == old(sql)@ + binary_sql(left.spec_sql(), sep@, right.spec_sql()),
        param_views(final(params)@) == param_views(old(params)@) + left.spec_params() + right.spec_params(),
{
    sql.append("(");
    left.write_to(sql, params);
    sql.append(sep);
    right.write_to(sql, params);
    sql.append(")");
    assert(sql@ =~= old(sql)@ + binary_sql(left.spec_sql(), sep@, right.spec_sql()));
    assert(param_views(params@) =~= param_views(old(params)@) + left.spec_params() + right.spec_params());
}

/// `lhs = rhs`: exact equality of two values of one SQL type.
pub struct Eq<L, R> {
    pub(crate) left: L,
    pub(crate) right: R,
}

/// `lhs != rhs`.
pub struct NotEq<L, R> {
    pub(crate) left: L,
    pub(crate) right: R,
}

/// `lhs < rhs`.
pub struct Lt<L, R> {
    pub(crate) left: L,
    pub(crate) right: R,
}

/// `lhs <= rhs`.
pub struct LtEq<L, R> {
    pub(crate) left: L,
    pub(crate) right: R,
}

/// `lhs > rhs`.
pub struct Gt<L, R> {
    pub(crate) left: L,
    pub(crate) right: R,
}

/// `lhs >= rhs`.
pub struct GtEq<L, R> {
    pub(crate) left: L,
    pub(crate) right: R,
}

/// `lhs AND rhs`.
pub struct And<L, R> {
    pub(crate) left: L,
    pub(crate) right: R,
}

/// `lhs OR rhs`.
pub struct Or<L, R> {
    pub(crate) left: L,
    pub(crate) right: R,
}

/// `NOT expr`.
pub struct Not<E> {
    pub(crate) inner: E,
}

/// `lhs LIKE rhs`: a text pattern match.
pub struct Like<L, R> {
    pub(crate) left: L,
    pub(crate) right: R,
}

/// `expr IS NULL`.
pub struct IsNull<E> {
    pub(crate) inner: E,
}

/// `expr IS NOT NULL`.
pub struct IsNotNull<E> {
    pub(crate) inner: E,
}

/// Boolean negation. A free function, because `.not()` would collide with
/// `std::ops::Not` on a `bool` literal.
pub fn not<E: Expr>(expr: E) -> (r: Not<E>)
    where E::SqlType: Negate,
    ensures
        r.spec_inner() == expr,
{
    Not { inner: expr }
}

impl<E: Expr> Expr for Not<E> where E::SqlType: Negate {
    type SqlType = <E::SqlType as Negate>::Out;

    open spec fn spec_sql(&self) -> Seq<char> {
        "NOT ("@ + self.spec_inner().spec_sql() + ")"@
    }

    open spec fn spec_params(&self) -> Seq<ParamView> {
        self.spec_inner().spec_params()
    }

    fn write_to(&self, sql: &mut String, params: &mut Vec<SqlValue>) {
        sql.append("NOT (");
        self.inner.write_to(sql, params);
        sql.append(")");
        assert(sql@ =~= old(sql)@ + self.spec_sql());
    }
}

impl<E: ExprLaws> ExprLaws for Not<E> where E::SqlType: Negate {
    proof fn lemma_placeholders(&self) {
        reveal_strlit("NOT (");
        reveal_strlit(")");
        lemma_no_placeholders("NOT ("@);
        lemma_no_placeholders(")"@);
        self.spec_inner().lemma_placeholders();
        lemma_placeholders_concat("NOT ("@, self.spec_inner().spec_sql());
        lemma_placeholders_concat("NOT ("@ + self.spec_inner().spec_sql(), ")"@);
    }
}

impl<E: Expr> Expr for IsNull<E> {
    type SqlType = Boolean;

    open spec fn spec_sql(&self) -> Seq<char> {
        "("@ + self.spec_inner().spec_sql() + " IS NULL)"@
    }

    open spec fn spec_params(&self) -> Seq<ParamView> {
        self.spec_inner().spec_params()
    }

    fn write_to(&self, sql: &mut String, params: &mut Vec<SqlValue>) {
        sql.append("(");
        self.inner.write_to(sql, params);
        sql.append(" IS NULL)");
        assert(sql@ =~= old(sql)@ + self.spec_sql());
    }
}

impl<E: ExprLaws> ExprLaws for IsNull<E> {
    proof fn lemma_placeholders(&self) {
        reveal_strlit("(");
        reveal_strlit(" IS NULL)");
        lemma_no_placeholders("("@);
        lemma_no_placeholders(" IS NULL)"@);
        self.spec_inner().lemma_placeholders();
        lemma_placeholders_concat("("@, self.spec_inner().spec_sql());
        lemma_placeholders_concat("("@ + self.spec_inner().spec_sql(), " IS NULL)"@);
    }
}

impl<E: Expr> Expr for IsNotNull<E> {
    type SqlType = Boolean;

    open spec fn spec_sql(&self) -> Seq<char> {
        "("@ + self.spec_inner().spec_sql() + " IS NOT NULL)"@
    }

    open spec fn spec_params(&self) -> Seq<ParamView> {
        self.spec_inner().spec_params()
    }

    fn write_to(&self, sql: &mut String, params: &mut Vec<SqlValue>) {
        sql.append("(");
        self.inner.write_to(sql, params);
        sql.append(" IS NOT NULL)");
        assert(sql@ =~= old(sql)@ + self.spec_sql());
    }
}

impl<E: ExprLaws> ExprLaws for IsNotNull<E> {
    proof fn lemma_placeholders(&self) {
        reveal_strlit("(");
        reveal_strlit(" IS NOT NULL)");
        lemma_no_placeholders("("@);
        lemma_no_placeholders(" IS NOT NULL)"@);
        self.spec_inner().lemma_placeholders();
        lemma_placeholders_concat("("@, self.spec_inner().spec_sql());
        lemma_placeholders_concat("("@ + self.spec_inner().spec_sql(), " IS NOT NULL)"@);
    }
}

impl<E> IsNotNull<E> {
    /// The operand, borrowed.
    pub(crate) fn inner(&self) -> (r: &E)
        ensures
            *r == self.spec_inner(),
    {
        &self.inner
    }

    /// The operand.
    pub closed spec fn spec_inner(&self) -> E {
        self.inner
    }

    /// `inner IS NOT NULL`.
    pub fn new(inner: E) -> (r: Self)
        ensures
            r.spec_inner() == inner,
    {
        IsNotNull { inner }
    }
}

impl<E> IsNull<E> {
    /// The operand, borrowed.
    pub(crate) fn inner(&self) -> (r: &E)
        ensures
            *r == self.spec_inner(),
    {
        &self.inner
    }

    /// The operand.
    pub closed spec fn spec_inner(&self) -> E {
        self.inner
    }

    /// `expr IS NULL`.
    pub fn new(inner: E) -> (r: Self)
        ensures
            r.spec_inner() == inner,
    {
        IsNull { inner }
    }
}

impl<E> Not<E> {
    /// The operand, borrowed.
    pub(crate) fn inner(&self) -> (r: &E)
        ensures
            *r == self.spec_inner(),
    {
        &self.inner
    }

    /// The operand.
    pub closed spec fn spec_inner(&self) -> E {
        self.inner
    }
}

impl<L: Expr, R: Expr> Expr for Eq<L, R> where L::SqlType: CompareWith<R::SqlType> {
    type SqlType = <L::SqlType as CompareWith<R::SqlType>>::Out;

    open spec fn spec_sql(&self) -> Seq<char> {
        binary_sql(self.spec_left().spec_sql(), " = "@, self.spec_right().spec_sql())
    }

    open spec fn spec_params(&self) -> Seq<ParamView> {
        self.spec_left().spec_params() + self.spec_right().spec_params()
    }

    fn write_to(&self, sql: &mut String, params: &mut Vec<SqlValue>) {
        write_binary(&self.left, " = ", &self.right, sql, params);
    }
}

impl<L: ExprLaws, R: ExprLaws> ExprLaws for Eq<L, R> where L::SqlType: CompareWith<R::SqlType> {
    proof fn lemma_placeholders(&self) {
        reveal_strlit(" = ");
        lemma_no_placeholders(" = "@);
        self.spec_left().lemma_placeholders();
        self.spec_right().lemma_placeholders();
        lemma_binary_placeholders(self.spec_left().spec_sql(), " = "@, self.spec_right().spec_sql());
    }
}

impl<L, R> Eq<L, R> {
    /// The left operand, borrowed.
    pub(crate) fn left(&self) -> (r: &L)
        ensures
            *r == self.spec_left(),
    {
        &self.left
    }

    /// The right operand, borrowed.
    pub(crate) fn right(&self) -> (r: &R)
        ensures
            *r == self.spec_right(),
    {
        &self.right
    }

    /// The left operand.
    pub closed spec fn spec_left(&self) -> L {
        self.left
    }

    /// The right operand.
    pub closed spec fn spec_right(&self) -> R {
        self.right
    }

    /// `left = right`.
    pub fn new(left: L, right: R) -> (r: Self)
        ensures
            r.spec_left() == left,
            r.spec_right() == right,
    {
        Eq { left, right }
    }
}

impl<L: Expr, R: Expr> Expr for NotEq<L, R> where L::SqlType: CompareWith<R::SqlType> {
    type SqlType = <L::SqlType as CompareWith<R::SqlType>>::Out;

    open spec fn spec_sql(&self) -> Seq<char> {
        binary_sql(self.spec_left().spec_sql(), " != "@, self.spec_right().spec_sql())
    }

    open spec fn spec_params(&self) -> Seq<ParamView> {
        self.spec_left().spec_params() + self.spec_right().spec_params()
    }

    fn write_to(&self, sql: &mut String, params: &mut Vec<SqlValue>) {
        write_binary(&self.left, " != ", &self.right, sql, params);
    }
}

impl<L: ExprLaws, R: ExprLaws> ExprLaws for NotEq<L, R> where L::SqlType: CompareWith<R::SqlType> {
    proof fn lemma_placeholders(&self) {
        reveal_strlit(" != ");
        lemma_no_placeholders(" != "@);
        self.spec_left().lemma_placeholders();
        self.spec_right().lemma_placeholders();
        lemma_binary_placeholders(self.spec_left().spec_sql(), " != "@, self.spec_right().spec_sql());
    }
}

impl<L, R> NotEq<L, R> {
    /// The left operand, borrowed.
    pub(crate) fn left(&self) -> (r: &L)
        ensures
            *r == self.spec_left(),
    {
        &self.left
    }

    /// The right operand, borrowed.
    pub(crate) fn right(&self) -> (r: &R)
        ensures
            *r == self.spec_right(),
    {
        &self.right
    }

    /// The left operand.
    pub closed spec fn spec_left(&self) -> L {
        self.left
    }

    /// The right operand.
    pub closed spec fn spec_right(&self) -> R {
        self.right
    }

    /// `left != right`.
    pub fn new(left: L, right: R) -> (r: Self)
        ensures
            r.spec_left() == left,
            r.spec_right() == right,
    {
        NotEq { left, right }
    }
}

impl<L: Expr, R: Expr> Expr for Lt<L, R> where L::SqlType: CompareWith<R::SqlType> {
    type SqlType = <L::SqlType as CompareWith<R::SqlType>>::Out;

    open spec fn spec_sql(&self) -> Seq<char> {
        binary_sql(self.spec_left().spec_sql(), " < "@, self.spec_right().spec_sql())
    }

    open spec fn spec_params(&self) -> Seq<ParamView> {
        self.spec_left().spec_params() + self.spec_right().spec_params()
    }

    fn write_to(&self, sql: &mut String, params: &mut Vec<SqlValue>) {
        write_binary(&self.left, " < ", &self.right, sql, params);
    }
}

impl<L: ExprLaws, R: ExprLaws> ExprLaws for Lt<L, R> where L::SqlType: CompareWith<R::SqlType> {
    proof fn lemma_placeholders(&self) {
        reveal_strlit(" < ");
        lemma_no_placeholders(" < "@);
        self.spec_left().lemma_placeholders();
        self.spec_right().lemma_placeholders();
        lemma_binary_placeholders(self.spec_left().spec_sql(), " < "@, self.spec_right().spec_sql());
    }
}

impl<L, R> Lt<L, R> {
    /// The left operand, borrowed.
    pub(crate) fn left(&self) -> (r: &L)
        ensures
            *r == self.spec_left(),
    {
        &self.left
    }

    /// The right operand, borrowed.
    pub(crate) fn right(&self) -> (r: &R)
        ensures
            *r == self.spec_right(),
    {
        &self.right
    }

    /// The left operand.
    pub closed spec fn spec_left(&self) -> L {
        self.left
    }

    /// The right operand.
    pub closed spec fn spec_right(&self) -> R {
        self.right
    }

    /// `left < right`.
    pub fn new(left: L, right: R) -> (r: Self)
        ensures
            r.spec_left() == left,
            r.spec_right() == right,
    {
        Lt { left, right }
    }
}

impl<L: Expr, R: Expr> Expr for LtEq<L, R> where L::SqlType: CompareWith<R::SqlType> {
    type SqlType = <L::SqlType as CompareWith<R::SqlType>>::Out;

    open spec fn spec_sql(&self) -> Seq<char> {
        binary_sql(self.spec_left().spec_sql(), " <= "@, self.spec_right().spec_sql())
    }

    open spec fn spec_params(&self) -> Seq<ParamView> {
        self.spec_left().spec_params() + self.spec_right().spec_params()
    }

    fn write_to(&self, sql: &mut String, params: &mut Vec<SqlValue>) {
        write_binary(&self.left, " <= ", &self.right, sql, params);
    }
}

impl<L: ExprLaws, R: ExprLaws> ExprLaws for LtEq<L, R> where L::SqlType: CompareWith<R::SqlType> {
    proof fn lemma_placeholders(&self) {
        reveal_strlit(" <= ");
        lemma_no_placeholders(" <= "@);
        self.spec_left().lemma_placeholders();
        self.spec_right().lemma_placeholders();
        lemma_binary_placeholders(self.spec_left().spec_sql(), " <= "@, self.spec_right().spec_sql());
    }
}

impl<L, R> LtEq<L, R> {
    /// The left operand, borrowed.
    pub(crate) fn left(&self) -> (r: &L)
        ensures
            *r == self.spec_left(),
    {
        &self.left
    }

    /// The right operand, borrowed.
    pub(crate) fn right(&self) -> (r: &R)
        ensures
            *r == self.spec_right(),
    {
        &self.right
    }

    /// The left operand.
    pub closed spec fn spec_left(&self) -> L {
        self.left
    }

    /// The right operand.
    pub closed spec fn spec_right(&self) -> R {
        self.right
    }

    /// `left <= right`.
    pub fn new(left: L, right: R) -> (r: Self)
        ensures
            r.spec_left() == left,
            r.spec_right() == right,
    {
        LtEq { left, right }
    }
}

impl<L: Expr, R: Expr> Expr for Gt<L, R> where L::SqlType: CompareWith<R::SqlType> {
    type SqlType = <L::SqlType as CompareWith<R::SqlType>>::Out;

    open spec fn spec_sql(&self) -> Seq<char> {
        binary_sql(self.spec_left().spec_sql(), " > "@, self.spec_right().spec_sql())
    }

    open spec fn spec_params(&self) -> Seq<ParamView> {
        self.spec_left().spec_params() + self.spec_right().spec_params()
    }

    fn write_to(&self, sql: &mut String, params: &mut Vec<SqlValue>) {
        write_binary(&self.left, " > ", &self.right, sql, params);
    }
}

impl<L: ExprLaws, R: ExprLaws> ExprLaws for Gt<L, R> where L::SqlType: CompareWith<R::SqlType> {
    proof fn lemma_placeholders(&self) {
        reveal_strlit(" > ");
        lemma_no_placeholders(" > "@);
        self.spec_left().lemma_placeholders();
        self.spec_right().lemma_placeholders();
        lemma_binary_placeholders(self.spec_left().spec_sql(), " > "@, self.spec_right().spec_sql());
    }
}

impl<L, R> Gt<L, R> {
    /// The left operand, borrowed.
    pub(crate) fn left(&self) -> (r: &L)
        ensures
            *r == self.spec_left(),
    {
        &self.left
    }

    /// The right operand, borrowed.
    pub(crate) fn right(&self) -> (r: &R)
        ensures
            *r == self.spec_right(),
    {
        &self.right
    }

    /// The left operand.
    pub closed spec fn spec_left(&self) -> L {
        self.left
    }

    /// The right operand.
    pub closed spec fn spec_right(&self) -> R {
        self.right
    }

    /// `left > right`.
    pub fn new(left: L, right: R) -> (r: Self)
        ensures
            r.spec_left() == left,
            r.spec_right() == right,
    {
        Gt { left, right }
    }
}

impl<L: Expr, R: Expr> Expr for GtEq<L, R> where L::SqlType: CompareWith<R::SqlType> {
    type SqlType = <L::SqlType as CompareWith<R::SqlType>>::Out;

    open spec fn spec_sql(&self) -> Seq<char> {
        binary_sql(self.spec_left().spec_sql(), " >= "@, self.spec_right().spec_sql())
    }

    open spec fn spec_params(&self) -> Seq<ParamView> {
        self.spec_left().spec_params() + self.spec_right().spec_params()
    }

    fn write_to(&self, sql: &mut String, params: &mut Vec<SqlValue>) {
        write_binary(&self.left, " >= ", &self.right, sql, params);
    }
}

impl<L: ExprLaws, R: ExprLaws> ExprLaws for GtEq<L, R> where L::SqlType: CompareWith<R::SqlType> {
    proof fn lemma_placeholders(&self) {
        reveal_strlit(" >= ");
        lemma_no_placeholders(" >= "@);
        self.spec_left().lemma_placeholders();
        self.spec_right().lemma_placeholders();
        lemma_binary_placeholders(self.spec_left().spec_sql(), " >= "@, self.spec_right().spec_sql());
    }
}

impl<L, R> GtEq<L, R> {
    /// The left operand, borrowed.
    pub(crate) fn left(&self) -> (r: &L)
        ensures
            *r == self.spec_left(),
    {
        &self.left
    }

    /// The right operand, borrowed.
    pub(crate) fn right(&self) -> (r: &R)
        ensures
            *r == self.spec_right(),
    {
        &self.right
    }

    /// The left operand.
    pub closed spec fn spec_left(&self) -> L {
        self.left
    }

    /// The right operand.
    pub closed spec fn spec_right(&self) -> R {
        self.right
    }

    /// `left >= right`.
    pub fn new(left: L, right: R) -> (r: Self)
        ensures
            r.spec_left() == left,
            r.spec_right() == right,
    {
        GtEq { left, right }
    }
}

impl<L: Expr, R: Expr> Expr for And<L, R> where L::SqlType: LogicWith<R::SqlType> {
    type SqlType = <L::SqlType as LogicWith<R::SqlType>>::Out;

    open spec fn spec_sql(&self) -> Seq<char> {
        binary_sql(self.spec_left().spec_sql(), " AND "@, self.spec_right().spec_sql())
    }

    open spec fn spec_params(&self) -> Seq<ParamView> {
        self.spec_left().spec_params() + self.spec_right().spec_params()
    }

    fn write_to(&self, sql: &mut String, params: &mut Vec<SqlValue>) {
        write_binary(&self.left, " AND ", &self.right, sql, params);
    }
}

impl<L: ExprLaws, R: ExprLaws> ExprLaws for And<L, R> where L::SqlType: LogicWith<R::SqlType> {
    proof fn lemma_placeholders(&self) {
        reveal_strlit(" AND ");
        lemma_no_placeholders(" AND "@);
        self.spec_left().lemma_placeholders();
        self.spec_right().lemma_placeholders();
        lemma_binary_placeholders(self.spec_left().spec_sql(), " AND "@, self.spec_right().spec_sql());
    }
}

impl<L, R> And<L, R> {
    /// The left operand, borrowed.
    pub(crate) fn left(&self) -> (r: &L)
        ensures
            *r == self.spec_left(),
    {
        &self.left
    }

    /// The right operand, borrowed.
    pub(crate) fn right(&self) -> (r: &R)
        ensures
            *r == self.spec_right(),
    {
        &self.right
    }

    /// The left operand.
    pub closed spec fn spec_left(&self) -> L {
        self.left
    }

    /// The right operand.
    pub closed spec fn spec_right(&self) -> R {
        self.right
    }

    /// `left AND right`.
    pub fn new(left: L, right: R) -> (r: Self)
        ensures
            r.spec_left() == left,
            r.spec_right() == right,
    {
        And { left, right }
    }
}

impl<L: Expr, R: Expr> Expr for Or<L, R> where L::SqlType: LogicWith<R::SqlType> {
    type SqlType = <L::SqlType as LogicWith<R::SqlType>>::Out;

    open spec fn spec_sql(&self) -> Seq<char> {
        binary_sql(self.spec_left().spec_sql(), " OR "@, self.spec_right().spec_sql())
    }

    open spec fn spec_params(&self) -> Seq<ParamView> {
        self.spec_left().spec_params() + self.spec_right().spec_params()
    }

    fn write_to(&self, sql: &mut String, params: &mut Vec<SqlValue>) {
        write_binary(&self.left, " OR ", &self.right, sql, params);
    }
}

impl<L: ExprLaws, R: ExprLaws> ExprLaws for Or<L, R> where L::SqlType: LogicWith<R::SqlType> {
    proof fn lemma_placeholders(&self) {
        reveal_strlit(" OR ");
        lemma_no_placeholders(" OR "@);
        self.spec_left().lemma_placeholders();
        self.spec_right().lemma_placeholders();
        lemma_binary_placeholders(self.spec_left().spec_sql(), " OR "@, self.spec_right().spec_sql());
    }
}

impl<L, R> Or<L, R> {
    /// The left operand, borrowed.
    pub(crate) fn left(&self) -> (r: &L)
        ensures
            *r == self.spec_left(),
    {
        &self.left
    }

    /// The right operand, borrowed.
    pub(crate) fn right(&self) -> (r: &R)
        ensures
            *r == self.spec_right(),
    {
        &self.right
    }

    /// The left operand.
    pub closed spec fn spec_left(&self) -> L {
        self.left
    }

    /// The right operand.
    pub closed spec fn spec_right(&self) -> R {
        self.right
    }

    /// `left OR right`.
    pub fn new(left: L, right: R) -> (r: Self)
        ensures
            r.spec_left() == left,
            r.spec_right() == right,
    {
        Or { left, right }
    }
}

impl<L: Expr, R: Expr> Expr for Like<L, R>
    where L::SqlType: Family<Base = Text> + CompareWith<R::SqlType>, R::SqlType: Family<Base = Text>,
{
    type SqlType = <L::SqlType as CompareWith<R::SqlType>>::Out;

    open spec fn spec_sql(&self) -> Seq<char> {
        binary_sql(self.spec_left().spec_sql(), " LIKE "@, self.spec_right().spec_sql())
    }

    open spec fn spec_params(&self) -> Seq<ParamView> {
        self.spec_left().spec_params() + self.spec_right().spec_params()
    }

    fn write_to(&self, sql: &mut String, params: &mut Vec<SqlValue>) {
        write_binary(&self.left, " LIKE ", &self.right, sql, params);
    }
}

impl<L: ExprLaws, R: ExprLaws> ExprLaws for Like<L, R>
    where L::SqlType: Family<Base = Text> + CompareWith<R::SqlType>, R::SqlType: Family<Base = Text>,
{
    proof fn lemma_placeholders(&self) {
        reveal_strlit(" LIKE ");
        lemma_no_placeholders(" LIKE "@);
        self.spec_left().lemma_placeholders();
        self.spec_right().lemma_placeholders();
        lemma_binary_placeholders(self.spec_left().spec_sql(), " LIKE "@, self.spec_right().spec_sql());
    }
}

impl<L, R> Like<L, R> {
    /// The left operand, borrowed.
    pub(crate) fn left(&self) -> (r: &L)
        ensures
            *r == self.spec_left(),
    {
        &self.left
    }

    /// The right operand, borrowed.
    pub(crate) fn right(&self) -> (r: &R)
        ensures
            *r == self.spec_right(),
    {
        &self.right
    }

    /// The left operand.
    pub closed spec fn spec_left(&self) -> L {
        self.left
    }

    /// The right operand.
    pub closed spec fn spec_right(&self) -> R {
        self.right
    }

    /// `left LIKE right`.
    pub fn new(left: L, right: R) -> (r: Self)
        ensures
            r.spec_left() == left,
            r.spec_right() == right,
    {
        Like { left, right }
    }
}

/// Bound values never reach the SQL text: comparing one expression with two
/// texts renders the same SQL, whatever the texts hold (quotes, semicolons,
/// keywords); each text travels only as a bound parameter, after the
/// expression's own.
pub proof fn lemma_text_values_are_bound<L: Expr>(a: Eq<L, &str>, b: Eq<L, &str>)
    where L::SqlType: CompareWith<Text>,
    requires
        a.spec_left() == b.spec_left(),
    ensures
        a.spec_sql() == b.spec_sql(),
        a.spec_params() == a.spec_left().spec_params() + seq![ParamView::Text(a.spec_right()@)],
{
}

/// An expression whose columns all belong to table `T`, so a query over
/// `T` may filter by it. A column belongs to its own table; a literal
/// belongs to every table; a node belongs where all its operands do.
pub trait BelongsTo<T> {}

impl<T> BelongsTo<T> for i32 {}

impl<T> BelongsTo<T> for i64 {}

impl<T> BelongsTo<T> for bool {}

impl<'a, T> BelongsTo<T> for &'a str {}

impl<T> BelongsTo<T> for String {}

impl<T, S> BelongsTo<T> for Lit<S> {}

impl<T, E: BelongsTo<T>> BelongsTo<T> for Option<E> {}

impl<T, L: BelongsTo<T>, R: BelongsTo<T>> BelongsTo<T> for Eq<L, R> {}

impl<T, L: BelongsTo<T>, R: BelongsTo<T>> BelongsTo<T> for NotEq<L, R> {}

impl<T, L: BelongsTo<T>, R: BelongsTo<T>> BelongsTo<T> for Lt<L, R> {}

impl<T, L: BelongsTo<T>, R: BelongsTo<T>> BelongsTo<T> for LtEq<L, R> {}

impl<T, L: BelongsTo<T>, R: BelongsTo<T>> BelongsTo<T> for Gt<L, R> {}

impl<T, L: BelongsTo<T>, R: BelongsTo<T>> BelongsTo<T> for GtEq<L, R> {}

impl<T, L: BelongsTo<T>, R: BelongsTo<T>> BelongsTo<T> for And<L, R> {}

impl<T, L: BelongsTo<T>, R: BelongsTo<T>> BelongsTo<T> for Or<L, R> {}

impl<T, L: BelongsTo<T>, R: BelongsTo<T>> BelongsTo<T> for Like<L, R> {}

impl<T, E: BelongsTo<T>> BelongsTo<T> for Not<E> {}

impl<T, E: BelongsTo<T>> BelongsTo<T> for IsNull<E> {}

impl<T, E: BelongsTo<T>> BelongsTo<T> for IsNotNull<E> {}

} // verus!

