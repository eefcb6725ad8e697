//! What an in-memory query yields: the rows its predicate keeps, in order,
//! then `OFFSET` and `LIMIT`; and the row-at-a-time reading of the same.
use vstd::prelude::*;

verus! {

/// The elements of `src` that `keep` keeps, in their order.
pub open spec fn kept<T>(src: Seq<T>, keep: spec_fn(T) -> bool) -> Seq<T>
    decreases src.len(),
{
    if src.len() == 0 {
        Seq::empty()
    } else if keep(src[0]) {
        seq![src[0]] + kept(src.drop_first(), keep)
    } else {
        kept(src.drop_first(), keep)
    }
}

/// `OFFSET offset` then `LIMIT limit` on `s`: the elements from position
/// `offset` on, at most `limit` of them (all of them without a limit).
pub open spec fn window<T>(s: Seq<T>, offset: nat, limit: Option<nat>) -> Seq<T> {
    let start = if offset <= s.len() { offset as int } else { s.len() as int };
    let end = match limit {
        Some(n) => if start + n <= s.len() { start + n } else { s.len() as int },
        None => s.len() as int,
    };
    s.subrange(start, end)
}

/// The offset a query was given, zero when it has none.
pub open spec fn offset_of(offset: Option<u64>) -> nat {
    match offset {
        Some(n) => n as nat,
        None => 0,
    }
}

/// The limit a query was given, as a count.
pub open spec fn limit_of(limit: Option<u64>) -> Option<nat> {
    match limit {
        Some(n) => Some(n as nat),
        None => None,
    }
}

/// What a row-at-a-time scan of `rest` yields: the rows `keep` keeps, the
/// first `skip` of them passed over, and no more than `left` of them.
pub open spec fn streamed<T>(rest: Seq<T>, keep: spec_fn(T) -> bool, skip: nat, left: Option<nat>) -> Seq<T>
    decreases rest.len(),
{
    if left == Some(0nat) || rest.len() == 0 {
        Seq::empty()
    } else if !keep(rest[0]) {
        streamed(rest.drop_first(), keep, skip, left)
    } else if skip > 0 {
        streamed(rest.drop_first(), keep, (skip - 1) as nat, left)
    } else {
        seq![rest[0]] + streamed(
            rest.drop_first(),
            keep,
            0,
            match left {
                Some(n) => Some((n - 1) as nat),
                None => None,
            },
        )
    }
}

/// Scanning row by row yields the window of the kept rows.
pub proof fn lemma_streamed_is_window<T>(rest: Seq<T>, keep: spec_fn(T) -> bool, skip: nat, left: Option<nat>)
    ensures
        streamed(rest, keep, skip, left) == window(kept(rest, keep), skip, left),
    decreases rest.len(),
{
    let k = kept(rest, keep);
    if left == Some(0nat) {
        assert(window(k, skip, left) =~= Seq::<T>::empty());
    } else if rest.len() == 0 {
        assert(window(k, skip, left) =~= Seq::<T>::empty());
    } else {
        let tail = rest.drop_first();
        let kt = kept(tail, keep);
        if !keep(rest[0]) {
            lemma_streamed_is_window(tail, keep, skip, left);
        } else if skip > 0 {
            lemma_streamed_is_window(tail, keep, (skip - 1) as nat, left);
            assert(k == seq![rest[0]] + kt);
            assert(window(k, skip, left) =~= window(kt, (skip - 1) as nat, left));
        } else {
            let left2 = match left {
                Some(n) => Some((n - 1) as nat),
                None => None,
            };
            lemma_streamed_is_window(tail, keep, 0, left2);
            assert(k == seq![rest[0]] + kt);
            assert(window(k, 0, left) =~= seq![rest[0]] + window(kt, 0, left2));
        }
    }
}

/// Every element the window holds is one `keep` keeps.
pub proof fn lemma_kept_keeps<T>(src: Seq<T>, keep: spec_fn(T) -> bool)
    ensures
        forall|i: int| 0 <= i < kept(src, keep).len() ==> keep(#[trigger] kept(src, keep)[i]),
        kept(src, keep).len() <= src.len(),
    decreases src.len(),
{
    if src.len() > 0 {
        lemma_kept_keeps(src.drop_first(), keep);
    }
}

/// Keeping the elements of a sequence with one more element at its end.
pub proof fn lemma_kept_push<T>(s: Seq<T>, x: T, keep: spec_fn(T) -> bool)
    ensures
        kept(s.push(x), keep) == if keep(x) {
            kept(s, keep).push(x)
        } else {
            kept(s, keep)
        },
    decreases s.len(),
{
    if s.len() == 0 {
        assert(s.push(x).drop_first() =~= Seq::<T>::empty());
        assert(kept(Seq::<T>::empty(), keep) =~= Seq::<T>::empty());
        if keep(x) {
            assert(kept(s.push(x), keep) =~= seq![x] + Seq::<T>::empty());
        }
    } else {
        assert(s.push(x).drop_first() =~= s.drop_first().push(x));
        lemma_kept_push(s.drop_first(), x, keep);
        if keep(s[0]) {
            if keep(x) {
                assert(seq![s[0]] + kept(s.drop_first(), keep).push(x) =~= (seq![s[0]] + kept(s.drop_first(), keep)).push(x));
            }
        }
    }
}

/// The elements of a sequence of references, dereferenced.
pub open spec fn derefs<T>(s: Seq<&T>) -> Seq<T> {
    s.map_values(|r: &T| *r)
}

/// A predicate that keeps everything keeps the whole sequence.
pub proof fn lemma_kept_all<T>(src: Seq<T>, keep: spec_fn(T) -> bool)
    requires
        forall|x: T| #[trigger] keep(x),
    ensures
        kept(src, keep) == src,
    decreases src.len(),
{
    if src.len() > 0 {
        lemma_kept_all(src.drop_first(), keep);
        assert(seq![src[0]] + src.drop_first() =~= src);
    }
}

/// Two predicates that agree keep the same elements.
pub proof fn lemma_kept_congruent<T>(src: Seq<T>, k1: spec_fn(T) -> bool, k2: spec_fn(T) -> bool)
    requires
        forall|x: T| #[trigger] k1(x) == k2(x),
    ensures
        kept(src, k1) == kept(src, k2),
    decreases src.len(),
{
    if src.len() > 0 {
        lemma_kept_congruent(src.drop_first(), k1, k2);
    }
}

/// Keeping by one predicate and then by another is keeping by both.
pub proof fn lemma_kept_twice<T>(src: Seq<T>, k1: spec_fn(T) -> bool, k2: spec_fn(T) -> bool)
    ensures
        kept(kept(src, k1), k2) == kept(src, |x: T| k1(x) && k2(x)),
    decreases src.len(),
{
    if src.len() > 0 {
        lemma_kept_twice(src.drop_first(), k1, k2);
        let both = |x: T| k1(x) && k2(x);
        if k1(src[0]) {
            let k = kept(src, k1);
            assert(k[0] == src[0]);
            assert(k.drop_first() =~= kept(src.drop_first(), k1));
        }
    }
}

/// No offset and no limit is the whole sequence; a limit bounds the length.
pub proof fn lemma_window_bounds<T>(s: Seq<T>, offset: nat, limit: Option<nat>)
    ensures
        window(s, 0, None) == s,
        window(s, offset, limit).len() <= s.len(),
        limit matches Some(n) ==> window(s, offset, limit).len() <= n,
        offset >= s.len() ==> window(s, offset, limit).len() == 0,
{
    assert(window(s, 0, None) =~= s);
}

/// A scan yields no more rows than it has left to look at, nor more than
/// its limit.
pub proof fn lemma_streamed_len<T>(rest: Seq<T>, keep: spec_fn(T) -> bool, skip: nat, left: Option<nat>)
    ensures
        streamed(rest, keep, skip, left).len() <= rest.len(),
        left matches Some(n) ==> streamed(rest, keep, skip, left).len() <= n,
    decreases rest.len(),
{
    if left == Some(0nat) || rest.len() == 0 {
    } else if !keep(rest[0]) {
        lemma_streamed_len(rest.drop_first(), keep, skip, left);
    } else if skip > 0 {
        lemma_streamed_len(rest.drop_first(), keep, (skip - 1) as nat, left);
    } else {
        lemma_streamed_len(
            rest.drop_first(),
            keep,
            0,
            match left {
                Some(n) => Some((n - 1) as nat),
                None => None,
            },
        );
    }
}

/// The upper bound a scan of `remaining` rows under `left` can promise.
pub open spec fn scan_bound(remaining: int, left: Option<u64>) -> int {
    match left {
        Some(l) => if l < remaining { l as int } else { remaining },
        None => remaining,
    }
}

/// The bound of [`scan_bound`], computed.
pub fn scan_bound_of(remaining: usize, left: Option<u64>) -> (r: usize)
    ensures
        r == scan_bound(remaining as int, left),
{
    match left {
        Some(l) => if l < remaining as u64 {
            l as usize
        } else {
            remaining
        },
        None => remaining,
    }
}

} // verus!
