//! What the comparison operators mean: the lifted comparisons and the
//! byte order of text, stated against the plain order of the values.
use vstd::prelude::*;

use crate::compare::{
    lemma_bytes_order_meaning, lex_less, lifted_comparison, CmpOp, OpEq, OpGt, OpGte, OpLt, OpLte, OpNe,
};
use crate::sql_types::{Boolean, Integer, Nullable, Text};
use vstd::string::StringSliceAdditionalSpecFns;

verus! {

/// `<` as an outcome test.
pub open spec fn op_lt() -> spec_fn(int) -> bool {
    |c: int| OpLt::spec_holds(c)
}

/// `<=` as an outcome test.
pub open spec fn op_lte() -> spec_fn(int) -> bool {
    |c: int| OpLte::spec_holds(c)
}

/// `>` as an outcome test.
pub open spec fn op_gt() -> spec_fn(int) -> bool {
    |c: int| OpGt::spec_holds(c)
}

/// `>=` as an outcome test.
pub open spec fn op_gte() -> spec_fn(int) -> bool {
    |c: int| OpGte::spec_holds(c)
}

/// `=` as an outcome test.
pub open spec fn op_eq() -> spec_fn(int) -> bool {
    |c: int| OpEq::spec_holds(c)
}

/// `!=` as an outcome test.
pub open spec fn op_ne() -> spec_fn(int) -> bool {
    |c: int| OpNe::spec_holds(c)
}

/// Integer comparisons compare the numbers, the left operand on the left,
/// whether or not either side is nullable; NULL on either side is NULL.
pub proof fn lemma_integer_comparisons<'x>(l: i64, r: i64)
    ensures
        lifted_comparison::<'x, Integer, Integer>(op_lt(), l, r) == (l < r),
        lifted_comparison::<'x, Integer, Nullable<Integer>>(op_lt(), l, Some(r)) == Some(l < r),
        lifted_comparison::<'x, Nullable<Integer>, Integer>(op_lt(), Some(l), r) == Some(l < r),
        lifted_comparison::<'x, Nullable<Integer>, Nullable<Integer>>(op_lt(), Some(l), Some(r)) == Some(l < r),
        lifted_comparison::<'x, Integer, Integer>(op_lte(), l, r) == (l <= r),
        lifted_comparison::<'x, Integer, Nullable<Integer>>(op_lte(), l, Some(r)) == Some(l <= r),
        lifted_comparison::<'x, Nullable<Integer>, Integer>(op_lte(), Some(l), r) == Some(l <= r),
        lifted_comparison::<'x, Nullable<Integer>, Nullable<Integer>>(op_lte(), Some(l), Some(r)) == Some(l <= r),
        lifted_comparison::<'x, Integer, Integer>(op_gt(), l, r) == (l > r),
        lifted_comparison::<'x, Integer, Nullable<Integer>>(op_gt(), l, Some(r)) == Some(l > r),
        lifted_comparison::<'x, Nullable<Integer>, Integer>(op_gt(), Some(l), r) == Some(l > r),
        lifted_comparison::<'x, Nullable<Integer>, Nullable<Integer>>(op_gt(), Some(l), Some(r)) == Some(l > r),
        lifted_comparison::<'x, Integer, Integer>(op_gte(), l, r) == (l >= r),
        lifted_comparison::<'x, Integer, Nullable<Integer>>(op_gte(), l, Some(r)) == Some(l >= r),
        lifted_comparison::<'x, Nullable<Integer>, Integer>(op_gte(), Some(l), r) == Some(l >= r),
        lifted_comparison::<'x, Nullable<Integer>, Nullable<Integer>>(op_gte(), Some(l), Some(r)) == Some(l >= r),
        lifted_comparison::<'x, Integer, Integer>(op_eq(), l, r) == (l == r),
        lifted_comparison::<'x, Integer, Nullable<Integer>>(op_eq(), l, Some(r)) == Some(l == r),
        lifted_comparison::<'x, Nullable<Integer>, Integer>(op_eq(), Some(l), r) == Some(l == r),
        lifted_comparison::<'x, Nullable<Integer>, Nullable<Integer>>(op_eq(), Some(l), Some(r)) == Some(l == r),
        lifted_comparison::<'x, Integer, Integer>(op_ne(), l, r) == (l != r),
        lifted_comparison::<'x, Integer, Nullable<Integer>>(op_ne(), l, Some(r)) == Some(l != r),
        lifted_comparison::<'x, Nullable<Integer>, Integer>(op_ne(), Some(l), r) == Some(l != r),
        lifted_comparison::<'x, Nullable<Integer>, Nullable<Integer>>(op_ne(), Some(l), Some(r)) == Some(l != r),
        forall|h: spec_fn(int) -> bool| #[trigger] lifted_comparison::<'x, Integer, Nullable<Integer>>(h, l, None::<i64>) == None::<bool>,
        forall|h: spec_fn(int) -> bool| #[trigger] lifted_comparison::<'x, Nullable<Integer>, Integer>(h, None::<i64>, r) == None::<bool>,
        forall|h: spec_fn(int) -> bool| #[trigger] lifted_comparison::<'x, Nullable<Integer>, Nullable<Integer>>(h, None::<i64>, Some(r)) == None::<bool>,
        forall|h: spec_fn(int) -> bool| #[trigger] lifted_comparison::<'x, Nullable<Integer>, Nullable<Integer>>(h, Some(l), None::<i64>) == None::<bool>,
{
}

/// Boolean comparisons order `false` before `true`, the left operand on
/// the left, whether or not either side is nullable; NULL on either side
/// is NULL.
pub proof fn lemma_boolean_comparisons<'x>(l: bool, r: bool)
    ensures
        lifted_comparison::<'x, Boolean, Boolean>(op_lt(), l, r) == (!l && r),
        lifted_comparison::<'x, Boolean, Nullable<Boolean>>(op_lt(), l, Some(r)) == Some(!l && r),
        lifted_comparison::<'x, Nullable<Boolean>, Boolean>(op_lt(), Some(l), r) == Some(!l && r),
        lifted_comparison::<'x, Nullable<Boolean>, Nullable<Boolean>>(op_lt(), Some(l), Some(r)) == Some(!l && r),
        lifted_comparison::<'x, Boolean, Boolean>(op_lte(), l, r) == (!l || r),
        lifted_comparison::<'x, Boolean, Nullable<Boolean>>(op_lte(), l, Some(r)) == Some(!l || r),
        lifted_comparison::<'x, Nullable<Boolean>, Boolean>(op_lte(), Some(l), r) == Some(!l || r),
        lifted_comparison::<'x, Nullable<Boolean>, Nullable<Boolean>>(op_lte(), Some(l), Some(r)) == Some(!l || r),
        lifted_comparison::<'x, Boolean, Boolean>(op_gt(), l, r) == (l && !r),
        lifted_comparison::<'x, Boolean, Nullable<Boolean>>(op_gt(), l, Some(r)) == Some(l && !r),
        lifted_comparison::<'x, Nullable<Boolean>, Boolean>(op_gt(), Some(l), r) == Some(l && !r),
        lifted_comparison::<'x, Nullable<Boolean>, Nullable<Boolean>>(op_gt(), Some(l), Some(r)) == Some(l && !r),
        lifted_comparison::<'x, Boolean, Boolean>(op_gte(), l, r) == (l || !r),
        lifted_comparison::<'x, Boolean, Nullable<Boolean>>(op_gte(), l, Some(r)) == Some(l || !r),
        lifted_comparison::<'x, Nullable<Boolean>, Boolean>(op_gte(), Some(l), r) == Some(l || !r),
        lifted_comparison::<'x, Nullable<Boolean>, Nullable<Boolean>>(op_gte(), Some(l), Some(r)) == Some(l || !r),
        lifted_comparison::<'x, Boolean, Boolean>(op_eq(), l, r) == (l == r),
        lifted_comparison::<'x, Boolean, Nullable<Boolean>>(op_eq(), l, Some(r)) == Some(l == r),
        lifted_comparison::<'x, Nullable<Boolean>, Boolean>(op_eq(), Some(l), r) == Some(l == r),
        lifted_comparison::<'x, Nullable<Boolean>, Nullable<Boolean>>(op_eq(), Some(l), Some(r)) == Some(l == r),
        lifted_comparison::<'x, Boolean, Boolean>(op_ne(), l, r) == (l != r),
        lifted_comparison::<'x, Boolean, Nullable<Boolean>>(op_ne(), l, Some(r)) == Some(l != r),
        lifted_comparison::<'x, Nullable<Boolean>, Boolean>(op_ne(), Some(l), r) == Some(l != r),
        lifted_comparison::<'x, Nullable<Boolean>, Nullable<Boolean>>(op_ne(), Some(l), Some(r)) == Some(l != r),
        forall|h: spec_fn(int) -> bool| #[trigger] lifted_comparison::<'x, Boolean, Nullable<Boolean>>(h, l, None::<bool>) == None::<bool>,
        forall|h: spec_fn(int) -> bool| #[trigger] lifted_comparison::<'x, Nullable<Boolean>, Boolean>(h, None::<bool>, r) == None::<bool>,
        forall|h: spec_fn(int) -> bool| #[trigger] lifted_comparison::<'x, Nullable<Boolean>, Nullable<Boolean>>(h, None::<bool>, Some(r)) == None::<bool>,
        forall|h: spec_fn(int) -> bool| #[trigger] lifted_comparison::<'x, Nullable<Boolean>, Nullable<Boolean>>(h, Some(l), None::<bool>) == None::<bool>,
{
}

/// Text comparisons compare the UTF-8 bytes lexicographically (Rust's
/// order on `str`), the left operand on the left, whether or not either
/// side is nullable; NULL on either side is NULL.
pub proof fn lemma_text_comparisons<'x>(l: &'x str, r: &'x str)
    ensures
        lifted_comparison::<'x, Text, Text>(op_lt(), l, r) == (lex_less(l.spec_bytes(), r.spec_bytes())),
        lifted_comparison::<'x, Text, Nullable<Text>>(op_lt(), l, Some(r)) == Some(lex_less(l.spec_bytes(), r.spec_bytes())),
        lifted_comparison::<'x, Nullable<Text>, Text>(op_lt(), Some(l), r) == Some(lex_less(l.spec_bytes(), r.spec_bytes())),
        lifted_comparison::<'x, Nullable<Text>, Nullable<Text>>(op_lt(), Some(l), Some(r)) == Some(lex_less(l.spec_bytes(), r.spec_bytes())),
        lifted_comparison::<'x, Text, Text>(op_lte(), l, r) == (!lex_less(r.spec_bytes(), l.spec_bytes())),
        lifted_comparison::<'x, Text, Nullable<Text>>(op_lte(), l, Some(r)) == Some(!lex_less(r.spec_bytes(), l.spec_bytes())),
        lifted_comparison::<'x, Nullable<Text>, Text>(op_lte(), Some(l), r) == Some(!lex_less(r.spec_bytes(), l.spec_bytes())),
        lifted_comparison::<'x, Nullable<Text>, Nullable<Text>>(op_lte(), Some(l), Some(r)) == Some(!lex_less(r.spec_bytes(), l.spec_bytes())),
        lifted_comparison::<'x, Text, Text>(op_gt(), l, r) == (lex_less(r.spec_bytes(), l.spec_bytes())),
        lifted_comparison::<'x, Text, Nullable<Text>>(op_gt(), l, Some(r)) == Some(lex_less(r.spec_bytes(), l.spec_bytes())),
        lifted_comparison::<'x, Nullable<Text>, Text>(op_gt(), Some(l), r) == Some(lex_less(r.spec_bytes(), l.spec_bytes())),
        lifted_comparison::<'x, Nullable<Text>, Nullable<Text>>(op_gt(), Some(l), Some(r)) == Some(lex_less(r.spec_bytes(), l.spec_bytes())),
        lifted_comparison::<'x, Text, Text>(op_gte(), l, r) == (!lex_less(l.spec_bytes(), r.spec_bytes())),
        lifted_comparison::<'x, Text, Nullable<Text>>(op_gte(), l, Some(r)) == Some(!lex_less(l.spec_bytes(), r.spec_bytes())),
        lifted_comparison::<'x, Nullable<Text>, Text>(op_gte(), Some(l), r) == Some(!lex_less(l.spec_bytes(), r.spec_bytes())),
        lifted_comparison::<'x, Nullable<Text>, Nullable<Text>>(op_gte(), Some(l), Some(r)) == Some(!lex_less(l.spec_bytes(), r.spec_bytes())),
        lifted_comparison::<'x, Text, Text>(op_eq(), l, r) == (l.spec_bytes() == r.spec_bytes()),
        lifted_comparison::<'x, Text, Nullable<Text>>(op_eq(), l, Some(r)) == Some(l.spec_bytes() == r.spec_bytes()),
        lifted_comparison::<'x, Nullable<Text>, Text>(op_eq(), Some(l), r) == Some(l.spec_bytes() == r.spec_bytes()),
        lifted_comparison::<'x, Nullable<Text>, Nullable<Text>>(op_eq(), Some(l), Some(r)) == Some(l.spec_bytes() == r.spec_bytes()),
        lifted_comparison::<'x, Text, Text>(op_ne(), l, r) == (l.spec_bytes() != r.spec_bytes()),
        lifted_comparison::<'x, Text, Nullable<Text>>(op_ne(), l, Some(r)) == Some(l.spec_bytes() != r.spec_bytes()),
        lifted_comparison::<'x, Nullable<Text>, Text>(op_ne(), Some(l), r) == Some(l.spec_bytes() != r.spec_bytes()),
        lifted_comparison::<'x, Nullable<Text>, Nullable<Text>>(op_ne(), Some(l), Some(r)) == Some(l.spec_bytes() != r.spec_bytes()),
        forall|h: spec_fn(int) -> bool| #[trigger] lifted_comparison::<'x, Text, Nullable<Text>>(h, l, None::<&'x str>) == None::<bool>,
        forall|h: spec_fn(int) -> bool| #[trigger] lifted_comparison::<'x, Nullable<Text>, Text>(h, None::<&'x str>, r) == None::<bool>,
        forall|h: spec_fn(int) -> bool| #[trigger] lifted_comparison::<'x, Nullable<Text>, Nullable<Text>>(h, None::<&'x str>, Some(r)) == None::<bool>,
        forall|h: spec_fn(int) -> bool| #[trigger] lifted_comparison::<'x, Nullable<Text>, Nullable<Text>>(h, Some(l), None::<&'x str>) == None::<bool>,
{
    lemma_bytes_order_meaning(l.spec_bytes(), r.spec_bytes());
}

} // verus!
