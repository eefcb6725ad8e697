//! Comparison operators over the in-memory representations, lifted over
//! nullability: a comparison with NULL on either side is NULL.
use vstd::prelude::*;

use crate::repr::{CompareOut, Repr, Rust};
use vstd::string::StringSliceAdditionalSpecFns;
use crate::sql_types::{Boolean, CompareWith, Integer, Nullable, Text};

verus! {

// ═══════════════════════════════════════════════════════════════════════
// Value orders
// ═══════════════════════════════════════════════════════════════════════

/// Three-way comparison of integers: negative, zero or positive.
pub open spec fn int_order(a: int, b: int) -> int {
    if a < b {
        -1
    } else if a == b {
        0
    } else {
        1
    }
}

/// A three-way outcome held in an `i8`, as an integer.
pub open spec fn outcome(c: i8) -> int {
    c as int
}

/// Three-way comparison of two `i64`s.
pub open spec fn i64_order(a: i64, b: i64) -> int {
    int_order(a as int, b as int)
}

/// Three-way comparison of booleans: `false` before `true`.
pub open spec fn bool_order(a: bool, b: bool) -> int {
    if a == b {
        0
    } else if !a {
        -1
    } else {
        1
    }
}

/// Lexicographic three-way comparison of byte strings; a proper prefix
/// comes first. On UTF-8 text this is Rust's order on `str`.
pub open spec fn bytes_order(a: Seq<u8>, b: Seq<u8>) -> int
    decreases a.len(),
{
    if a.len() == 0 && b.len() == 0 {
        0
    } else if a.len() == 0 {
        -1
    } else if b.len() == 0 {
        1
    } else if a[0] < b[0] {
        -1
    } else if a[0] > b[0] {
        1
    } else {
        bytes_order(a.skip(1), b.skip(1))
    }
}

/// Three-way comparison of two integers.
pub fn compare_i64(a: i64, b: i64) -> (r: i8)
    ensures
        r == i64_order(a, b),
{
    if a < b {
        -1
    } else if a == b {
        0
    } else {
        1
    }
}

/// Three-way comparison of two booleans.
pub fn compare_bool(a: bool, b: bool) -> (r: i8)
    ensures
        r == bool_order(a, b),
{
    if a == b {
        0
    } else if !a {
        -1
    } else {
        1
    }
}

/// Lexicographic three-way comparison of two byte strings.
pub fn compare_bytes(a: &[u8], b: &[u8]) -> (r: i8)
    ensures
        r == bytes_order(a@, b@),
{
    let mut i: usize = 0;
    assert(a@.skip(0) == a@);
    assert(b@.skip(0) == b@);
    while i < a.len() && i < b.len()
        invariant
            i <= a@.len(),
            i <= b@.len(),
            bytes_order(a@, b@) == bytes_order(a@.skip(i as int), b@.skip(i as int)),
        decreases a@.len() - i,
    {
        if a[i] < b[i] {
            return -1;
        }
        if a[i] > b[i] {
            return 1;
        }
        proof {
            assert(a@.skip(i as int).skip(1) == a@.skip(i + 1));
            assert(b@.skip(i as int).skip(1) == b@.skip(i + 1));
        }
        i = i + 1;
    }
    if i == a.len() && i == b.len() {
        0
    } else if i == a.len() {
        -1
    } else {
        1
    }
}

/// Three-way comparison of two strings by their UTF-8 bytes.
pub fn compare_text(a: &str, b: &str) -> (r: i8)
    ensures
        r == bytes_order(a.spec_bytes(), b.spec_bytes()),
{
    compare_bytes(a.as_bytes(), b.as_bytes())
}

/// Byte strings compare equal exactly when they are equal.
pub proof fn lemma_bytes_order_zero(a: Seq<u8>, b: Seq<u8>)
    ensures
        (bytes_order(a, b) == 0) == (a == b),
    decreases a.len(),
{
    if a.len() > 0 && b.len() > 0 && a[0] == b[0] {
        lemma_bytes_order_zero(a.skip(1), b.skip(1));
        if a.skip(1) == b.skip(1) {
            assert(a =~= b) by {
                assert forall|i: int| 0 <= i < a.len() implies a[i] == b[i] by {
                    if i > 0 {
                        assert(a.skip(1)[i - 1] == b.skip(1)[i - 1]);
                    }
                }
            }
        } else if a == b {
            assert(a.skip(1) =~= b.skip(1));
        }
    } else if a.len() > 0 && b.len() > 0 {
        assert(a[0] != b[0]);
    } else if a.len() != b.len() {
        assert(a != b);
    } else {
        assert(a =~= b);
    }
}

/// Byte order is antisymmetric and takes the values -1, 0 and 1.
pub proof fn lemma_bytes_order_antisym(a: Seq<u8>, b: Seq<u8>)
    ensures
        -1 <= bytes_order(a, b) <= 1,
        bytes_order(a, b) == -bytes_order(b, a),
    decreases a.len(),
{
    if a.len() > 0 && b.len() > 0 && a[0] == b[0] {
        lemma_bytes_order_antisym(a.skip(1), b.skip(1));
    }
}

/// Byte order is transitive.
pub proof fn lemma_bytes_order_trans(a: Seq<u8>, b: Seq<u8>, c: Seq<u8>)
    requires
        bytes_order(a, b) <= 0,
        bytes_order(b, c) <= 0,
    ensures
        bytes_order(a, c) <= 0,
    decreases a.len(),
{
    if a.len() > 0 && b.len() > 0 && c.len() > 0 && a[0] == b[0] && b[0] == c[0] {
        lemma_bytes_order_trans(a.skip(1), b.skip(1), c.skip(1));
    }
}

/// Whether two strings hold the same characters.
pub fn text_eq(a: &str, b: &str) -> (r: bool)
    ensures
        r == (a@ == b@),
{
    let c = compare_text(a, b);
    proof {
        lemma_bytes_order_zero(a.spec_bytes(), b.spec_bytes());
        vstd::utf8::encode_utf8_decode_utf8(a@);
        vstd::utf8::encode_utf8_decode_utf8(b@);
    }
    c == 0
}

// ═══════════════════════════════════════════════════════════════════════
// Comparison operators
// ═══════════════════════════════════════════════════════════════════════

/// A comparison operator, as a type: whether it holds for two values,
/// given how they compare.
pub trait CmpOp {
    /// Whether the operator holds for values that compare as `c`
    /// (negative: less, zero: equal, positive: greater).
    spec fn spec_holds(c: int) -> bool;

    /// Whether the operator holds for values that compare as `c`.
    fn holds(c: i8) -> (r: bool)
        ensures
            r == Self::spec_holds(c as int),
    ;
}

/// Operator marker for `=`.
#[derive(Debug, Clone, Copy)]
pub struct OpEq;

/// Operator marker for `!=`.
#[derive(Debug, Clone, Copy)]
pub struct OpNe;

/// Operator marker for `<`.
#[derive(Debug, Clone, Copy)]
pub struct OpLt;

/// Operator marker for `<=`.
#[derive(Debug, Clone, Copy)]
pub struct OpLte;

/// Operator marker for `>`.
#[derive(Debug, Clone, Copy)]
pub struct OpGt;

/// Operator marker for `>=`.
#[derive(Debug, Clone, Copy)]
pub struct OpGte;

impl CmpOp for OpEq {
    open spec fn spec_holds(c: int) -> bool {
        c == 0
    }

    fn holds(c: i8) -> (r: bool) {
        c == 0
    }
}

impl CmpOp for OpNe {
    open spec fn spec_holds(c: int) -> bool {
        c != 0
    }

    fn holds(c: i8) -> (r: bool) {
        c != 0
    }
}

impl CmpOp for OpLt {
    open spec fn spec_holds(c: int) -> bool {
        c < 0
    }

    fn holds(c: i8) -> (r: bool) {
        c < 0
    }
}

impl CmpOp for OpLte {
    open spec fn spec_holds(c: int) -> bool {
        c <= 0
    }

    fn holds(c: i8) -> (r: bool) {
        c <= 0
    }
}

impl CmpOp for OpGt {
    open spec fn spec_holds(c: int) -> bool {
        c > 0
    }

    fn holds(c: i8) -> (r: bool) {
        c > 0
    }
}

impl CmpOp for OpGte {
    open spec fn spec_holds(c: int) -> bool {
        c >= 0
    }

    fn holds(c: i8) -> (r: bool) {
        c >= 0
    }
}

/// A comparison lifted over nullability: NULL on either side gives NULL.
pub trait Cmp3<'x, Rhs: Repr<'x>>: CompareWith<Rhs> + Repr<'x> where Self::Out: Repr<'x> {
    /// The comparison of `l` with `r`, for an operator that holds on the
    /// three-way outcomes where `holds` does.
    spec fn spec_cmp3(
        holds: spec_fn(int) -> bool,
        l: Rust<'x, Self>,
        r: Rust<'x, Rhs>,
    ) -> CompareOut<'x, Self, Rhs>;

    /// The same values compare the same way.
    proof fn lemma_cmp3_congruent(
        holds: spec_fn(int) -> bool,
        l1: Rust<'x, Self>,
        r1: Rust<'x, Rhs>,
        l2: Rust<'x, Self>,
        r2: Rust<'x, Rhs>,
    )
        requires
            Self::spec_same(l1, l2),
            Rhs::spec_same(r1, r2),
        ensures
            Self::spec_cmp3(holds, l1, r1) == Self::spec_cmp3(holds, l2, r2),
    ;

    /// Three-valued comparison.
    fn cmp3<Op: CmpOp>(
        l: Rust<'x, Self>,
        r: Rust<'x, Rhs>,
    ) -> (res: CompareOut<'x, Self, Rhs>)
        ensures
            res == Self::spec_cmp3(|c: int| Op::spec_holds(c), l, r),
    ;
}

impl<'x> Cmp3<'x, Integer> for Integer {
    open spec fn spec_cmp3(holds: spec_fn(int) -> bool, l: i64, r: i64) -> bool {
        holds(i64_order(l, r))
    }

    proof fn lemma_cmp3_congruent(holds: spec_fn(int) -> bool, l1: i64, r1: i64, l2: i64, r2: i64) {
    }

    fn cmp3<Op: CmpOp>(l: i64, r: i64) -> (res: bool) {
        Op::holds(compare_i64(l, r))
    }
}

impl<'x> Cmp3<'x, Nullable<Integer>> for Integer {
    open spec fn spec_cmp3(holds: spec_fn(int) -> bool, l: i64, r: Option<i64>) -> Option<bool> {
        match r {
            Some(v) => Some(holds(i64_order(l, v))),
            None => None,
        }
    }

    proof fn lemma_cmp3_congruent(holds: spec_fn(int) -> bool, l1: i64, r1: Option<i64>, l2: i64, r2: Option<i64>) {
    }

    fn cmp3<Op: CmpOp>(l: i64, r: Option<i64>) -> (res: Option<bool>) {
        match r {
            Some(v) => Some(Op::holds(compare_i64(l, v))),
            None => None,
        }
    }
}

impl<'x> Cmp3<'x, Integer> for Nullable<Integer> {
    open spec fn spec_cmp3(holds: spec_fn(int) -> bool, l: Option<i64>, r: i64) -> Option<bool> {
        match l {
            Some(v) => Some(holds(i64_order(v, r))),
            None => None,
        }
    }

    proof fn lemma_cmp3_congruent(holds: spec_fn(int) -> bool, l1: Option<i64>, r1: i64, l2: Option<i64>, r2: i64) {
    }

    fn cmp3<Op: CmpOp>(l: Option<i64>, r: i64) -> (res: Option<bool>) {
        match l {
            Some(v) => Some(Op::holds(compare_i64(v, r))),
            None => None,
        }
    }
}

impl<'x> Cmp3<'x, Nullable<Integer>> for Nullable<Integer> {
    /// Not `l == r` on the options: `None == None` would be TRUE, and in
    /// SQL `NULL = NULL` is NULL.
    open spec fn spec_cmp3(holds: spec_fn(int) -> bool, l: Option<i64>, r: Option<i64>) -> Option<bool> {
        match (l, r) {
            (Some(a), Some(b)) => Some(holds(i64_order(a, b))),
            _ => None,
        }
    }

    proof fn lemma_cmp3_congruent(holds: spec_fn(int) -> bool, l1: Option<i64>, r1: Option<i64>, l2: Option<i64>, r2: Option<i64>) {
    }

    fn cmp3<Op: CmpOp>(l: Option<i64>, r: Option<i64>) -> (res: Option<bool>) {
        match (l, r) {
            (Some(a), Some(b)) => Some(Op::holds(compare_i64(a, b))),
            _ => None,
        }
    }
}

impl<'x> Cmp3<'x, Text> for Text {
    open spec fn spec_cmp3(holds: spec_fn(int) -> bool, l: &'x str, r: &'x str) -> bool {
        holds(bytes_order(l.spec_bytes(), r.spec_bytes()))
    }

    proof fn lemma_cmp3_congruent(holds: spec_fn(int) -> bool, l1: &'x str, r1: &'x str, l2: &'x str, r2: &'x str) {
    }

    fn cmp3<Op: CmpOp>(l: &'x str, r: &'x str) -> (res: bool) {
        Op::holds(compare_text(l, r))
    }
}

impl<'x> Cmp3<'x, Nullable<Text>> for Text {
    open spec fn spec_cmp3(holds: spec_fn(int) -> bool, l: &'x str, r: Option<&'x str>) -> Option<bool> {
        match r {
            Some(v) => Some(holds(bytes_order(l.spec_bytes(), v.spec_bytes()))),
            None => None,
        }
    }

    proof fn lemma_cmp3_congruent(holds: spec_fn(int) -> bool, l1: &'x str, r1: Option<&'x str>, l2: &'x str, r2: Option<&'x str>) {
    }

    fn cmp3<Op: CmpOp>(l: &'x str, r: Option<&'x str>) -> (res: Option<bool>) {
        match r {
            Some(v) => Some(Op::holds(compare_text(l, v))),
            None => None,
        }
    }
}

impl<'x> Cmp3<'x, Text> for Nullable<Text> {
    open spec fn spec_cmp3(holds: spec_fn(int) -> bool, l: Option<&'x str>, r: &'x str) -> Option<bool> {
        match l {
            Some(v) => Some(holds(bytes_order(v.spec_bytes(), r.spec_bytes()))),
            None => None,
        }
    }

    proof fn lemma_cmp3_congruent(holds: spec_fn(int) -> bool, l1: Option<&'x str>, r1: &'x str, l2: Option<&'x str>, r2: &'x str) {
    }

    fn cmp3<Op: CmpOp>(l: Option<&'x str>, r: &'x str) -> (res: Option<bool>) {
        match l {
            Some(v) => Some(Op::holds(compare_text(v, r))),
            None => None,
        }
    }
}

impl<'x> Cmp3<'x, Nullable<Text>> for Nullable<Text> {
    /// Not `l == r` on the options: `None == None` would be TRUE, and in
    /// SQL `NULL = NULL` is NULL.
    open spec fn spec_cmp3(holds: spec_fn(int) -> bool, l: Option<&'x str>, r: Option<&'x str>) -> Option<bool> {
        match (l, r) {
            (Some(a), Some(b)) => Some(holds(bytes_order(a.spec_bytes(), b.spec_bytes()))),
            _ => None,
        }
    }

    proof fn lemma_cmp3_congruent(holds: spec_fn(int) -> bool, l1: Option<&'x str>, r1: Option<&'x str>, l2: Option<&'x str>, r2: Option<&'x str>) {
    }

    fn cmp3<Op: CmpOp>(l: Option<&'x str>, r: Option<&'x str>) -> (res: Option<bool>) {
        match (l, r) {
            (Some(a), Some(b)) => Some(Op::holds(compare_text(a, b))),
            _ => None,
        }
    }
}

impl<'x> Cmp3<'x, Boolean> for Boolean {
    open spec fn spec_cmp3(holds: spec_fn(int) -> bool, l: bool, r: bool) -> bool {
        holds(bool_order(l, r))
    }

    proof fn lemma_cmp3_congruent(holds: spec_fn(int) -> bool, l1: bool, r1: bool, l2: bool, r2: bool) {
    }

    fn cmp3<Op: CmpOp>(l: bool, r: bool) -> (res: bool) {
        Op::holds(compare_bool(l, r))
    }
}

impl<'x> Cmp3<'x, Nullable<Boolean>> for Boolean {
    open spec fn spec_cmp3(holds: spec_fn(int) -> bool, l: bool, r: Option<bool>) -> Option<bool> {
        match r {
            Some(v) => Some(holds(bool_order(l, v))),
            None => None,
        }
    }

    proof fn lemma_cmp3_congruent(holds: spec_fn(int) -> bool, l1: bool, r1: Option<bool>, l2: bool, r2: Option<bool>) {
    }

    fn cmp3<Op: CmpOp>(l: bool, r: Option<bool>) -> (res: Option<bool>) {
        match r {
            Some(v) => Some(Op::holds(compare_bool(l, v))),
            None => None,
        }
    }
}

impl<'x> Cmp3<'x, Boolean> for Nullable<Boolean> {
    open spec fn spec_cmp3(holds: spec_fn(int) -> bool, l: Option<bool>, r: bool) -> Option<bool> {
        match l {
            Some(v) => Some(holds(bool_order(v, r))),
            None => None,
        }
    }

    proof fn lemma_cmp3_congruent(holds: spec_fn(int) -> bool, l1: Option<bool>, r1: bool, l2: Option<bool>, r2: bool) {
    }

    fn cmp3<Op: CmpOp>(l: Option<bool>, r: bool) -> (res: Option<bool>) {
        match l {
            Some(v) => Some(Op::holds(compare_bool(v, r))),
            None => None,
        }
    }
}

impl<'x> Cmp3<'x, Nullable<Boolean>> for Nullable<Boolean> {
    /// Not `l == r` on the options: `None == None` would be TRUE, and in
    /// SQL `NULL = NULL` is NULL.
    open spec fn spec_cmp3(holds: spec_fn(int) -> bool, l: Option<bool>, r: Option<bool>) -> Option<bool> {
        match (l, r) {
            (Some(a), Some(b)) => Some(holds(bool_order(a, b))),
            _ => None,
        }
    }

    proof fn lemma_cmp3_congruent(holds: spec_fn(int) -> bool, l1: Option<bool>, r1: Option<bool>, l2: Option<bool>, r2: Option<bool>) {
    }

    fn cmp3<Op: CmpOp>(l: Option<bool>, r: Option<bool>) -> (res: Option<bool>) {
        match (l, r) {
            (Some(a), Some(b)) => Some(Op::holds(compare_bool(a, b))),
            _ => None,
        }
    }
}



// ═══════════════════════════════════════════════════════════════════════
// What the comparisons mean
// ═══════════════════════════════════════════════════════════════════════

/// `a` comes before `b` byte by byte: where they first differ `a` has the
/// smaller byte, or `a` is a proper prefix of `b`. This is Rust's order on
/// `str`, taken on the UTF-8 encodings.
pub open spec fn lex_less(a: Seq<u8>, b: Seq<u8>) -> bool {
    exists|i: int|
        0 <= i <= a.len() && i <= b.len() && #[trigger] a.take(i) == b.take(i) && ((i == a.len() && i < b.len()) || (
        i < a.len() && i < b.len() && a[i] < b[i]))
}

/// Two byte strings that agree on their first element and on the first
/// `j` elements after it agree on their first `j + 1` elements.
proof fn lemma_take_step(a: Seq<u8>, b: Seq<u8>, j: int)
    requires
        0 <= j,
        j + 1 <= a.len(),
        j + 1 <= b.len(),
        a[0] == b[0],
        a.skip(1).take(j) == b.skip(1).take(j),
    ensures
        a.take(j + 1) == b.take(j + 1),
{
    assert forall|k: int| 0 <= k < j + 1 implies #[trigger] a.take(j + 1)[k] == b.take(j + 1)[k] by {
        if k > 0 {
            assert(a.skip(1).take(j)[k - 1] == b.skip(1).take(j)[k - 1]);
            assert(a.skip(1).take(j)[k - 1] == a[k]);
            assert(b.skip(1).take(j)[k - 1] == b[k]);
        }
        assert(a.take(j + 1)[k] == a[k]);
        assert(b.take(j + 1)[k] == b[k]);
    }
    assert(a.take(j + 1) =~= b.take(j + 1));
}

/// A three-way byte comparison that is negative means `a` comes first.
proof fn lemma_lex_of_order(a: Seq<u8>, b: Seq<u8>)
    requires
        bytes_order(a, b) < 0,
    ensures
        lex_less(a, b),
    decreases a.len(),
{
    if a.len() == 0 {
        assert(a.take(0) =~= b.take(0));
    } else if b.len() == 0 {
    } else if a[0] < b[0] {
        assert(a.take(0) =~= b.take(0));
    } else if a[0] > b[0] {
    } else {
        lemma_lex_of_order(a.skip(1), b.skip(1));
        let j = choose|j: int|
            0 <= j <= a.skip(1).len() && j <= b.skip(1).len() && #[trigger] a.skip(1).take(j) == b.skip(1).take(j) && ((j
                == a.skip(1).len() && j < b.skip(1).len()) || (j < a.skip(1).len() && j < b.skip(1).len() && a.skip(1)[j]
                < b.skip(1)[j]));
        lemma_take_step(a, b, j);
        assert(a.take(j + 1) == b.take(j + 1));
    }
}

/// `a` coming first means the three-way byte comparison is negative.
proof fn lemma_order_of_lex(a: Seq<u8>, b: Seq<u8>)
    requires
        lex_less(a, b),
    ensures
        bytes_order(a, b) < 0,
    decreases a.len(),
{
    let i = choose|i: int|
        0 <= i <= a.len() && i <= b.len() && #[trigger] a.take(i) == b.take(i) && ((i == a.len() && i < b.len()) || (i
            < a.len() && i < b.len() && a[i] < b[i]));
    if i > 0 {
        assert(a.take(i)[0] == b.take(i)[0]);
        assert(a.skip(1).take(i - 1) =~= b.skip(1).take(i - 1)) by {
            assert forall|k: int| 0 <= k < i - 1 implies #[trigger] a.skip(1).take(i - 1)[k] == b.skip(1).take(i - 1)[k] by {
                assert(a.take(i)[k + 1] == b.take(i)[k + 1]);
            }
        }
        if i == a.len() {
            assert(a.skip(1).len() == i - 1);
        } else {
            assert(a.skip(1)[i - 1] == a[i] && b.skip(1)[i - 1] == b[i]);
        }
        assert(lex_less(a.skip(1), b.skip(1)));
        lemma_order_of_lex(a.skip(1), b.skip(1));
    }
}

/// The three-way byte comparison means what it says: negative exactly
/// when `a` comes first, zero exactly when the strings are equal, positive
/// exactly when `b` comes first.
pub proof fn lemma_bytes_order_meaning(a: Seq<u8>, b: Seq<u8>)
    ensures
        (bytes_order(a, b) < 0) == lex_less(a, b),
        (bytes_order(a, b) == 0) == (a == b),
        (bytes_order(a, b) > 0) == lex_less(b, a),
{
    lemma_bytes_order_zero(a, b);
    lemma_bytes_order_antisym(a, b);
    if bytes_order(a, b) < 0 {
        lemma_lex_of_order(a, b);
    }
    if lex_less(a, b) {
        lemma_order_of_lex(a, b);
    }
    if bytes_order(b, a) < 0 {
        lemma_lex_of_order(b, a);
    }
    if lex_less(b, a) {
        lemma_order_of_lex(b, a);
    }
}

/// The lifted comparison of `L` with `R`, named without its trait.
pub open spec fn lifted_comparison<'x, L: Cmp3<'x, R>, R: Repr<'x>>(
    holds: spec_fn(int) -> bool,
    l: Rust<'x, L>,
    r: Rust<'x, R>,
) -> CompareOut<'x, L, R>
    where L::Out: Repr<'x>,
{
    L::spec_cmp3(holds, l, r)
}

} // verus!
