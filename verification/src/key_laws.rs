//! What the sort keys mean: they order as Rust's `Ord` does, so sorting,
//! `min_`/`max_` and their keyed forms put numbers in numeric order,
//! `false` before `true`, and text in byte order.
use vstd::prelude::*;

use crate::compare::{lemma_bytes_order_meaning, lex_less};
use crate::ordered::{is_stable_order, key_order, SortKey};
use crate::queryable::{is_first_min, is_last_max};
use vstd::string::StringSliceAdditionalSpecFns;
use vstd::utf8::encode_utf8;

verus! {

/// Sort keys order as `Ord` does: integers and characters by value,
/// `false` before `true`, text by its UTF-8 bytes, and pairs by their
/// first component, then their second.
pub proof fn lemma_sort_keys_follow_ord()
    ensures
        forall|a: i64, b: i64| #[trigger] <i64 as SortKey>::spec_le(a, b) == (a <= b),
        forall|a: i32, b: i32| #[trigger] <i32 as SortKey>::spec_le(a, b) == (a <= b),
        forall|a: u64, b: u64| #[trigger] <u64 as SortKey>::spec_le(a, b) == (a <= b),
        forall|a: u32, b: u32| #[trigger] <u32 as SortKey>::spec_le(a, b) == (a <= b),
        forall|a: usize, b: usize| #[trigger] <usize as SortKey>::spec_le(a, b) == (a <= b),
        forall|a: char, b: char| #[trigger] <char as SortKey>::spec_le(a, b) == (a <= b),
        <bool as SortKey>::spec_le(false, true),
        !<bool as SortKey>::spec_le(true, false),
        <bool as SortKey>::spec_le(false, false),
        <bool as SortKey>::spec_le(true, true),
        forall|a: &str, b: &str| #[trigger] <&str as SortKey>::spec_le(a, b) == !lex_less(b.spec_bytes(), a.spec_bytes()),
        forall|a: String, b: String| #[trigger] <String as SortKey>::spec_le(a, b) == !lex_less(encode_utf8(b@), encode_utf8(a@)),
        forall|a: &String, b: &String| #[trigger] <&String as SortKey>::spec_le(a, b) == !lex_less(encode_utf8(b@), encode_utf8(a@)),
        forall|a: (i64, i64), b: (i64, i64)| #[trigger] <(i64, i64) as SortKey>::spec_le(a, b) == (a.0 < b.0 || (a.0 == b.0 && a.1 <= b.1)),
{
    assert forall|a: &str, b: &str| #[trigger] <&str as SortKey>::spec_le(a, b) == !lex_less(b.spec_bytes(), a.spec_bytes()) by {
        lemma_bytes_order_meaning(a.spec_bytes(), b.spec_bytes());
    }
    assert forall|a: String, b: String| #[trigger] <String as SortKey>::spec_le(a, b) == !lex_less(encode_utf8(b@), encode_utf8(a@)) by {
        lemma_bytes_order_meaning(encode_utf8(a@), encode_utf8(b@));
    }
    assert forall|a: &String, b: &String| #[trigger] <&String as SortKey>::spec_le(a, b) == !lex_less(encode_utf8(b@), encode_utf8(a@)) by {
        lemma_bytes_order_meaning(encode_utf8(a@), encode_utf8(b@));
    }
}

/// `min_` and `max_` on integers pick by numeric value: the first least
/// element is no greater than any element and less than every element
/// before it; the last greatest is no less than any and greater than every
/// element after it. The same holds of the keys that `min_by_key_` and
/// `max_by_key_` compare.
pub proof fn lemma_min_max_are_numeric(s: Seq<i64>, t: Seq<u64>, i: int, k: int)
    ensures
        is_first_min(s, i) ==> (forall|j: int| 0 <= j < s.len() ==> s[i] <= #[trigger] s[j]) && (forall|j: int|
            0 <= j < i ==> #[trigger] s[j] > s[i]),
        is_last_max(s, i) ==> (forall|j: int| 0 <= j < s.len() ==> #[trigger] s[j] <= s[i]) && (forall|j: int|
            i < j < s.len() ==> #[trigger] s[j] < s[i]),
        is_first_min(t, k) ==> (forall|j: int| 0 <= j < t.len() ==> t[k] <= #[trigger] t[j]) && (forall|j: int|
            0 <= j < k ==> #[trigger] t[j] > t[k]),
        is_last_max(t, k) ==> (forall|j: int| 0 <= j < t.len() ==> #[trigger] t[j] <= t[k]) && (forall|j: int|
            k < j < t.len() ==> #[trigger] t[j] < t[k]),
{
    lemma_sort_keys_follow_ord();
}

/// Sorting by integer keys puts them in numeric order: ascending, or
/// descending for `order_by_descending`.
pub proof fn lemma_integer_keys_sort_numerically<T>(
    keys: Seq<i64>,
    source: Seq<T>,
    perm: Seq<int>,
    out: Seq<T>,
    descending: bool,
)
    requires
        is_stable_order(key_order(keys, descending), source, perm, out),
    ensures
        forall|a: int, b: int|
            0 <= a < b < out.len() ==> if descending {
                keys[#[trigger] perm[a]] >= keys[#[trigger] perm[b]]
            } else {
                keys[perm[a]] <= keys[perm[b]]
            },
{
    lemma_sort_keys_follow_ord();
    assert forall|a: int, b: int| 0 <= a < b < out.len() implies if descending {
        keys[#[trigger] perm[a]] >= keys[#[trigger] perm[b]]
    } else {
        keys[perm[a]] <= keys[perm[b]]
    } by {
        assert(key_order(keys, descending)(perm[a], perm[b]));
    }
}

/// Sorting by unsigned keys puts them in numeric order.
pub proof fn lemma_unsigned_keys_sort_numerically<T>(
    keys: Seq<u64>,
    source: Seq<T>,
    perm: Seq<int>,
    out: Seq<T>,
    descending: bool,
)
    requires
        is_stable_order(key_order(keys, descending), source, perm, out),
    ensures
        forall|a: int, b: int|
            0 <= a < b < out.len() ==> if descending {
                keys[#[trigger] perm[a]] >= keys[#[trigger] perm[b]]
            } else {
                keys[perm[a]] <= keys[perm[b]]
            },
{
    lemma_sort_keys_follow_ord();
    assert forall|a: int, b: int| 0 <= a < b < out.len() implies if descending {
        keys[#[trigger] perm[a]] >= keys[#[trigger] perm[b]]
    } else {
        keys[perm[a]] <= keys[perm[b]]
    } by {
        assert(key_order(keys, descending)(perm[a], perm[b]));
    }
}

/// Sorting by boolean keys puts `false` before `true`: ascending, no
/// `true` key comes before a `false` one; descending, the reverse.
pub proof fn lemma_boolean_keys_sort_false_first<T>(
    keys: Seq<bool>,
    source: Seq<T>,
    perm: Seq<int>,
    out: Seq<T>,
    descending: bool,
)
    requires
        is_stable_order(key_order(keys, descending), source, perm, out),
    ensures
        forall|a: int, b: int|
            0 <= a < b < out.len() ==> if descending {
                !(!keys[#[trigger] perm[a]] && keys[#[trigger] perm[b]])
            } else {
                !(keys[perm[a]] && !keys[perm[b]])
            },
{
    lemma_sort_keys_follow_ord();
    assert forall|a: int, b: int| 0 <= a < b < out.len() implies if descending {
        !(!keys[#[trigger] perm[a]] && keys[#[trigger] perm[b]])
    } else {
        !(keys[perm[a]] && !keys[perm[b]])
    } by {
        assert(key_order(keys, descending)(perm[a], perm[b]));
    }
}

} // verus!
