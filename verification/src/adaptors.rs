//! Lazy adaptors: each holds what is left of its source and yields one
//! element per call of `next`, doing only the work that element needs.
//! Draining one gives what the eager operator of the same name returns.
use vstd::prelude::*;

use std::collections::VecDeque;
use crate::keyed::{clone_is_identity, has_key, key_callable, partial_eqv};
use crate::queryable::{callable_on, flatten_views, lemma_flatten_views_push, search_stop, while_stop};
use vstd::std_specs::cmp::PartialEqSpec;

verus! {

/// The elements of `v`, in order, ready to be taken from the front.
fn deque_of<T>(v: Vec<T>) -> (d: VecDeque<T>)
    ensures
        d@ == v@,
{
    let ghost src = v@;
    let mut d: VecDeque<T> = VecDeque::new();
    for x in it: v.into_iter()
        invariant
            src == it.seq(),
            d@ == src.take(it.index() as int),
    {
        assert(src.take(it.index() + 1) == src.take(it.index() as int).push(x));
        d.push_back(x);
    }
    proof {
        assert(src.take(src.len() as int) == src);
    }
    d
}

// ── Where ────────────────────────────────────────────────────────────────

/// Lazy [`where_`](crate::LinqExt::where_): the elements that satisfy the
/// predicate.
pub struct Where<T, P> {
    inner: VecDeque<T>,
    predicate: P,
}

impl<T, P: Fn(&T) -> bool> Where<T, P> {
    /// The elements not yet looked at.
    pub closed spec fn spec_rest(&self) -> Seq<T> {
        self.inner@
    }

    /// The predicate.
    pub closed spec fn spec_predicate(&self) -> P {
        self.predicate
    }

    /// Filters `source` by `predicate`.
    pub fn new(source: Vec<T>, predicate: P) -> (r: Self)
        ensures
            r.spec_rest() == source@,
            r.spec_predicate() == predicate,
    {
        Where { inner: deque_of(source), predicate }
    }

    /// The next element that satisfies the predicate.
    pub fn next(&mut self) -> (r: Option<T>)
        requires
            callable_on(old(self).spec_predicate(), old(self).spec_rest()),
        ensures
            final(self).spec_predicate() == old(self).spec_predicate(),
            exists|k: int|
                {
                    &&& search_stop(old(self).spec_predicate(), old(self).spec_rest(), k)
                    &&& k < old(self).spec_rest().len() ==> r == Some(old(self).spec_rest()[k])
                        && final(self).spec_rest() == old(self).spec_rest().skip(k + 1)
                    &&& k == old(self).spec_rest().len() ==> r is None && final(self).spec_rest() == Seq::<T>::empty()
                },
    {
        let ghost s = self.inner@;
        let ghost p = self.predicate;
        let ghost mut k: int = 0;
        loop
            invariant
                p == self.predicate,
                p == old(self).spec_predicate(),
                s == old(self).spec_rest(),
                callable_on(p, s),
                0 <= k <= s.len(),
                self.inner@ == s.skip(k),
                forall|i: int| 0 <= i < k ==> call_ensures(p, (&#[trigger] s[i],), false),
            decreases s.len() - k,
        {
            match self.inner.pop_front() {
                None => {
                    assert(search_stop(p, s, k));
                    return None;
                },
                Some(item) => {
                    assert(item == s[k]);
                    assert(s.skip(k).drop_first() == s.skip(k + 1));
                    if (self.predicate)(&item) {
                        assert(search_stop(p, s, k));
                        return Some(item);
                    }
                    proof {
                        k = k + 1;
                    }
                },
            }
        }
    }
}

// ── Select ───────────────────────────────────────────────────────────────

/// Lazy [`select`](crate::LinqExt::select): each element projected.
pub struct Select<T, F> {
    inner: VecDeque<T>,
    f: F,
}

impl<T, B, F: Fn(T) -> B> Select<T, F> {
    /// The elements not yet projected.
    pub closed spec fn spec_rest(&self) -> Seq<T> {
        self.inner@
    }

    /// The projection.
    pub closed spec fn spec_f(&self) -> F {
        self.f
    }

    /// Projects `source` through `f`.
    pub fn new(source: Vec<T>, f: F) -> (r: Self)
        ensures
            r.spec_rest() == source@,
            r.spec_f() == f,
    {
        Select { inner: deque_of(source), f }
    }

    /// How many elements are still to come, exactly.
    pub fn size_hint(&self) -> (r: (usize, Option<usize>))
        ensures
            r.0 == self.spec_rest().len(),
            r.1 == Some(r.0),
    {
        let n = self.inner.len();
        (n, Some(n))
    }

    /// The next element, projected.
    pub fn next(&mut self) -> (r: Option<B>)
        requires
            old(self).spec_rest().len() > 0 ==> call_requires(old(self).spec_f(), (old(self).spec_rest()[0],)),
        ensures
            final(self).spec_f() == old(self).spec_f(),
            old(self).spec_rest().len() == 0 ==> r is None && final(self).spec_rest() == old(self).spec_rest(),
            old(self).spec_rest().len() > 0 ==> {
                &&& r matches Some(y) && call_ensures(old(self).spec_f(), (old(self).spec_rest()[0],), y)
                &&& final(self).spec_rest() == old(self).spec_rest().drop_first()
            },
    {
        match self.inner.pop_front() {
            None => None,
            Some(x) => Some((self.f)(x)),
        }
    }

    /// The last element not yet projected, projected.
    pub fn next_back(&mut self) -> (r: Option<B>)
        requires
            old(self).spec_rest().len() > 0 ==> call_requires(old(self).spec_f(), (old(self).spec_rest().last(),)),
        ensures
            final(self).spec_f() == old(self).spec_f(),
            old(self).spec_rest().len() == 0 ==> r is None && final(self).spec_rest() == old(self).spec_rest(),
            old(self).spec_rest().len() > 0 ==> {
                &&& r matches Some(y) && call_ensures(old(self).spec_f(), (old(self).spec_rest().last(),), y)
                &&& final(self).spec_rest() == old(self).spec_rest().drop_last()
            },
    {
        match self.inner.pop_back() {
            None => None,
            Some(x) => Some((self.f)(x)),
        }
    }
}

// ── Skip / Take ──────────────────────────────────────────────────────────

/// Lazy [`skip_`](crate::LinqExt::skip_): all but the first `n` elements.
pub struct Skip<T> {
    inner: VecDeque<T>,
    remaining: usize,
}

impl<T> Skip<T> {
    /// The elements not yet looked at.
    pub closed spec fn spec_rest(&self) -> Seq<T> {
        self.inner@
    }

    /// How many elements are still to be skipped.
    pub closed spec fn spec_remaining(&self) -> usize {
        self.remaining
    }

    /// Skips the first `n` elements of `source`.
    pub fn new(source: Vec<T>, n: usize) -> (r: Self)
        ensures
            r.spec_rest() == source@,
            r.spec_remaining() == n,
    {
        Skip { inner: deque_of(source), remaining: n }
    }

    /// How many elements are still to come, exactly: those left after the
    /// ones still to be skipped.
    pub fn size_hint(&self) -> (r: (usize, Option<usize>))
        ensures
            r.0 == if self.spec_rest().len() >= self.spec_remaining() {
                self.spec_rest().len() - self.spec_remaining()
            } else {
                0
            },
            r.1 == Some(r.0),
    {
        let n = self.inner.len().saturating_sub(self.remaining);
        (n, Some(n))
    }

    /// The next element after the skipped ones. The skip happens once: a
    /// later call does not skip again.
    pub fn next(&mut self) -> (r: Option<T>)
        ensures
            final(self).spec_remaining() == 0,
            old(self).spec_remaining() < old(self).spec_rest().len() ==> r == Some(
                old(self).spec_rest()[old(self).spec_remaining() as int],
            ) && final(self).spec_rest() == old(self).spec_rest().skip(old(self).spec_remaining() + 1),
            old(self).spec_remaining() >= old(self).spec_rest().len() ==> r is None && final(self).spec_rest() == Seq::<
                T,
            >::empty(),
    {
        let ghost s = self.inner@;
        let ghost n = self.remaining as int;
        while self.remaining > 0
            invariant
                n == old(self).spec_remaining(),
                s == old(self).spec_rest(),
                0 <= self.remaining <= n,
                n - self.remaining <= s.len(),
                self.inner@ == s.skip(n - self.remaining),
            decreases self.remaining,
        {
            match self.inner.pop_front() {
                None => {
                    self.remaining = 0;
                    assert(s.skip(s.len() as int) == Seq::<T>::empty());
                    return None;
                },
                Some(_) => {
                    assert(s.skip(n - self.remaining).drop_first() == s.skip(n - self.remaining + 1));
                    self.remaining = self.remaining - 1;
                },
            }
        }
        let r = self.inner.pop_front();
        proof {
            if n < s.len() {
                assert(s.skip(n).drop_first() == s.skip(n + 1));
            }
        }
        r
    }
}

/// Lazy [`take_`](crate::LinqExt::take_): at most the first `n` elements.
pub struct Take<T> {
    inner: VecDeque<T>,
    remaining: usize,
}

impl<T> Take<T> {
    /// The elements not yet looked at.
    pub closed spec fn spec_rest(&self) -> Seq<T> {
        self.inner@
    }

    /// How many more elements may be taken.
    pub closed spec fn spec_remaining(&self) -> usize {
        self.remaining
    }

    /// Takes at most `n` elements of `source`.
    pub fn new(source: Vec<T>, n: usize) -> (r: Self)
        ensures
            r.spec_rest() == source@,
            r.spec_remaining() == n,
    {
        Take { inner: deque_of(source), remaining: n }
    }

    /// How many elements are still to come, exactly: those left, up to the
    /// budget.
    pub fn size_hint(&self) -> (r: (usize, Option<usize>))
        ensures
            r.0 == if self.spec_rest().len() <= self.spec_remaining() {
                self.spec_rest().len() as int
            } else {
                self.spec_remaining() as int
            },
            r.1 == Some(r.0),
    {
        let n = if self.inner.len() <= self.remaining {
            self.inner.len()
        } else {
            self.remaining
        };
        (n, Some(n))
    }

    /// The next element, while the budget lasts.
    pub fn next(&mut self) -> (r: Option<T>)
        ensures
            old(self).spec_remaining() == 0 ==> r is None && final(self).spec_rest() == old(self).spec_rest()
                && final(self).spec_remaining() == 0,
            old(self).spec_remaining() > 0 ==> {
                &&& final(self).spec_remaining() == old(self).spec_remaining() - 1
                &&& old(self).spec_rest().len() > 0 ==> r == Some(old(self).spec_rest()[0])
                    && final(self).spec_rest() == old(self).spec_rest().drop_first()
                &&& old(self).spec_rest().len() == 0 ==> r is None && final(self).spec_rest() == old(self).spec_rest()
            },
    {
        if self.remaining == 0 {
            return None;
        }
        self.remaining = self.remaining - 1;
        self.inner.pop_front()
    }
}

// ── SkipWhile / TakeWhile ────────────────────────────────────────────────

/// Lazy [`skip_while_`](crate::LinqExt::skip_while_): drops the leading
/// elements that satisfy the predicate, then yields everything.
pub struct SkipWhile<T, P> {
    inner: VecDeque<T>,
    predicate: P,
    done_skipping: bool,
}

impl<T, P: Fn(&T) -> bool> SkipWhile<T, P> {
    /// The elements not yet looked at.
    pub closed spec fn spec_rest(&self) -> Seq<T> {
        self.inner@
    }

    /// The predicate.
    pub closed spec fn spec_predicate(&self) -> P {
        self.predicate
    }

    /// Whether the leading run has been skipped.
    pub closed spec fn spec_done_skipping(&self) -> bool {
        self.done_skipping
    }

    /// Skips the leading elements of `source` that satisfy `predicate`.
    pub fn new(source: Vec<T>, predicate: P) -> (r: Self)
        ensures
            r.spec_rest() == source@,
            r.spec_predicate() == predicate,
            !r.spec_done_skipping(),
    {
        SkipWhile { inner: deque_of(source), predicate, done_skipping: false }
    }

    /// The next element after the leading run.
    pub fn next(&mut self) -> (r: Option<T>)
        requires
            callable_on(old(self).spec_predicate(), old(self).spec_rest()),
        ensures
            final(self).spec_predicate() == old(self).spec_predicate(),
            old(self).spec_done_skipping() ==> {
                &&& final(self).spec_done_skipping()
                &&& old(self).spec_rest().len() > 0 ==> r == Some(old(self).spec_rest()[0])
                    && final(self).spec_rest() == old(self).spec_rest().drop_first()
                &&& old(self).spec_rest().len() == 0 ==> r is None && final(self).spec_rest() == old(self).spec_rest()
            },
            !old(self).spec_done_skipping() ==> exists|k: int|
                {
                    &&& while_stop(old(self).spec_predicate(), old(self).spec_rest(), k)
                    &&& k < old(self).spec_rest().len() ==> r == Some(old(self).spec_rest()[k])
                        && final(self).spec_rest() == old(self).spec_rest().skip(k + 1) && final(self).spec_done_skipping()
                    &&& k == old(self).spec_rest().len() ==> r is None && final(self).spec_rest() == Seq::<T>::empty()
                        && !final(self).spec_done_skipping()
                },
    {
        let ghost s = self.inner@;
        let ghost p = self.predicate;
        if self.done_skipping {
            return self.inner.pop_front();
        }
        let ghost mut k: int = 0;
        loop
            invariant
                p == self.predicate,
                p == old(self).spec_predicate(),
                s == old(self).spec_rest(),
                !old(self).spec_done_skipping(),
                !self.done_skipping,
                callable_on(p, s),
                0 <= k <= s.len(),
                self.inner@ == s.skip(k),
                forall|i: int| 0 <= i < k ==> call_ensures(p, (&#[trigger] s[i],), true),
            decreases s.len() - k,
        {
            match self.inner.pop_front() {
                None => {
                    assert(while_stop(p, s, k));
                    return None;
                },
                Some(item) => {
                    assert(item == s[k]);
                    assert(s.skip(k).drop_first() == s.skip(k + 1));
                    if !(self.predicate)(&item) {
                        self.done_skipping = true;
                        assert(while_stop(p, s, k));
                        return Some(item);
                    }
                    proof {
                        k = k + 1;
                    }
                },
            }
        }
    }
}

/// Lazy [`take_while_`](crate::LinqExt::take_while_): the leading elements
/// that satisfy the predicate.
pub struct TakeWhile<T, P> {
    inner: VecDeque<T>,
    predicate: P,
    done: bool,
}

impl<T, P: Fn(&T) -> bool> TakeWhile<T, P> {
    /// The elements not yet looked at.
    pub closed spec fn spec_rest(&self) -> Seq<T> {
        self.inner@
    }

    /// The predicate.
    pub closed spec fn spec_predicate(&self) -> P {
        self.predicate
    }

    /// Whether an element has failed the predicate.
    pub closed spec fn spec_done(&self) -> bool {
        self.done
    }

    /// Takes the leading elements of `source` that satisfy `predicate`.
    pub fn new(source: Vec<T>, predicate: P) -> (r: Self)
        ensures
            r.spec_rest() == source@,
            r.spec_predicate() == predicate,
            !r.spec_done(),
    {
        TakeWhile { inner: deque_of(source), predicate, done: false }
    }

    /// The next element, while they satisfy the predicate.
    pub fn next(&mut self) -> (r: Option<T>)
        requires
            old(self).spec_rest().len() > 0 ==> call_requires(old(self).spec_predicate(), (&old(self).spec_rest()[0],)),
        ensures
            final(self).spec_predicate() == old(self).spec_predicate(),
            old(self).spec_done() ==> r is None && final(self).spec_rest() == old(self).spec_rest() && final(self).spec_done(),
            !old(self).spec_done() && old(self).spec_rest().len() == 0 ==> r is None && final(self).spec_rest() == old(
                self,
            ).spec_rest() && !final(self).spec_done(),
            !old(self).spec_done() && old(self).spec_rest().len() > 0 ==> {
                &&& final(self).spec_rest() == old(self).spec_rest().drop_first()
                &&& exists|b: bool|
                    {
                        &&& call_ensures(old(self).spec_predicate(), (&old(self).spec_rest()[0],), b)
                        &&& b ==> r == Some(old(self).spec_rest()[0]) && !final(self).spec_done()
                        &&& !b ==> r is None && final(self).spec_done()
                    }
            },
    {
        if self.done {
            return None;
        }
        let ghost s = self.inner@;
        match self.inner.pop_front() {
            None => None,
            Some(item) => {
                let b = (self.predicate)(&item);
                if b {
                    Some(item)
                } else {
                    self.done = true;
                    None
                }
            },
        }
    }
}

// ── Concat / Zip / Reverse ───────────────────────────────────────────────

/// Lazy [`concat_`](crate::LinqExt::concat_): one sequence, then another.
pub struct Concat<T> {
    first: VecDeque<T>,
    second: VecDeque<T>,
    on_second: bool,
}

impl<T> Concat<T> {
    /// The elements still to come.
    pub closed spec fn spec_rest(&self) -> Seq<T> {
        if self.on_second {
            self.second@
        } else {
            self.first@ + self.second@
        }
    }

    /// `first`, then `second`.
    pub fn new(first: Vec<T>, second: Vec<T>) -> (r: Self)
        ensures
            r.spec_rest() == first@ + second@,
    {
        Concat { first: deque_of(first), second: deque_of(second), on_second: false }
    }

    /// The next element.
    pub fn next(&mut self) -> (r: Option<T>)
        ensures
            old(self).spec_rest().len() > 0 ==> r == Some(old(self).spec_rest()[0])
                && final(self).spec_rest() == old(self).spec_rest().drop_first(),
            old(self).spec_rest().len() == 0 ==> r is None && final(self).spec_rest() == old(self).spec_rest(),
    {
        if !self.on_second {
            let ghost f = self.first@;
            let ghost g = self.second@;
            match self.first.pop_front() {
                Some(v) => {
                    assert((f + g).drop_first() == f.drop_first() + g);
                    return Some(v);
                },
                None => {
                    assert(f + g == g);
                    self.on_second = true;
                },
            }
        }
        self.second.pop_front()
    }
}

/// Lazy [`zip_`](crate::LinqExt::zip_): pairs of elements combined, until
/// either sequence ends.
pub struct Zip<T, U, F> {
    first: VecDeque<T>,
    second: VecDeque<U>,
    result_selector: F,
}

impl<T, U, R, F: Fn(T, U) -> R> Zip<T, U, F> {
    /// The elements of the first sequence still to come.
    pub closed spec fn spec_first(&self) -> Seq<T> {
        self.first@
    }

    /// The elements of the second sequence still to come.
    pub closed spec fn spec_second(&self) -> Seq<U> {
        self.second@
    }

    /// The combining function.
    pub closed spec fn spec_selector(&self) -> F {
        self.result_selector
    }

    /// Zips `first` with `second` through `result_selector`.
    pub fn new(first: Vec<T>, second: Vec<U>, result_selector: F) -> (r: Self)
        ensures
            r.spec_first() == first@,
            r.spec_second() == second@,
            r.spec_selector() == result_selector,
    {
        Zip { first: deque_of(first), second: deque_of(second), result_selector }
    }

    /// How many pairs are still to come, exactly: as many as the shorter
    /// sequence has left.
    pub fn size_hint(&self) -> (r: (usize, Option<usize>))
        ensures
            r.0 == if self.spec_first().len() <= self.spec_second().len() {
                self.spec_first().len()
            } else {
                self.spec_second().len()
            },
            r.1 == Some(r.0),
    {
        let n = if self.first.len() <= self.second.len() {
            self.first.len()
        } else {
            self.second.len()
        };
        (n, Some(n))
    }

    /// The next pair, combined. When the first sequence is not exhausted but
    /// the second is, the first's element is consumed and dropped.
    pub fn next(&mut self) -> (r: Option<R>)
        requires
            old(self).spec_first().len() > 0 && old(self).spec_second().len() > 0 ==> call_requires(
                old(self).spec_selector(),
                (old(self).spec_first()[0], old(self).spec_second()[0]),
            ),
        ensures
            final(self).spec_selector() == old(self).spec_selector(),
            old(self).spec_first().len() == 0 ==> r is None && final(self).spec_first() == old(self).spec_first()
                && final(self).spec_second() == old(self).spec_second(),
            old(self).spec_first().len() > 0 && old(self).spec_second().len() == 0 ==> r is None
                && final(self).spec_first() == old(self).spec_first().drop_first() && final(self).spec_second() == old(
                self,
            ).spec_second(),
            old(self).spec_first().len() > 0 && old(self).spec_second().len() > 0 ==> {
                &&& r matches Some(y) && call_ensures(
                    old(self).spec_selector(),
                    (old(self).spec_first()[0], old(self).spec_second()[0]),
                    y,
                )
                &&& final(self).spec_first() == old(self).spec_first().drop_first()
                &&& final(self).spec_second() == old(self).spec_second().drop_first()
            },
    {
        let a = match self.first.pop_front() {
            Some(a) => a,
            None => return None,
        };
        let b = match self.second.pop_front() {
            Some(b) => b,
            None => return None,
        };
        Some((self.result_selector)(a, b))
    }
}

/// Lazy [`reverse`](crate::LinqExt::reverse): the elements last to first.
pub struct Reverse<T> {
    buffer: VecDeque<T>,
}

impl<T> Reverse<T> {
    /// The elements still to come, in the order they will come.
    pub closed spec fn spec_rest(&self) -> Seq<T> {
        self.buffer@.reverse()
    }

    /// `source`, last to first.
    pub fn new(source: Vec<T>) -> (r: Self)
        ensures
            r.spec_rest() == source@.reverse(),
    {
        Reverse { buffer: deque_of(source) }
    }

    /// How many elements are still to come, exactly.
    pub fn size_hint(&self) -> (r: (usize, Option<usize>))
        ensures
            r.0 == self.spec_rest().len(),
            r.1 == Some(r.0),
    {
        let n = self.buffer.len();
        (n, Some(n))
    }

    /// The next element.
    pub fn next(&mut self) -> (r: Option<T>)
        ensures
            old(self).spec_rest().len() > 0 ==> r == Some(old(self).spec_rest()[0])
                && final(self).spec_rest() == old(self).spec_rest().drop_first(),
            old(self).spec_rest().len() == 0 ==> r is None && final(self).spec_rest() == old(self).spec_rest(),
    {
        let ghost b = self.buffer@;
        let r = self.buffer.pop_back();
        proof {
            if b.len() > 0 {
                assert(b.drop_last().reverse() =~= b.reverse().drop_first());
            }
        }
        r
    }
}

// ── SelectMany / Flatten ─────────────────────────────────────────────────

/// One call of [`SelectMany::next`]: it mapped the first `vs.len()` source
/// elements (`vs` holds what `f` gave), and yielded the first element of
/// what the current sequence and those results hold, if any.
pub open spec fn select_many_step<T, U, F: Fn(T) -> Vec<U>>(
    f: F,
    outer: Seq<T>,
    current: Seq<U>,
    vs: Seq<Vec<U>>,
    r: Option<U>,
    outer2: Seq<T>,
    current2: Seq<U>,
) -> bool {
    &&& vs.len() <= outer.len()
    &&& forall|i: int| 0 <= i < vs.len() ==> call_ensures(f, (outer[i],), #[trigger] vs[i])
    &&& outer2 == outer.skip(vs.len() as int)
    &&& current + flatten_views(vs) != Seq::<U>::empty() ==> {
        &&& r == Some((current + flatten_views(vs))[0])
        &&& current2 == (current + flatten_views(vs)).drop_first()
    }
    &&& current + flatten_views(vs) == Seq::<U>::empty() ==> {
        &&& r is None
        &&& vs.len() == outer.len()
        &&& current2 == Seq::<U>::empty()
    }
}

/// Lazy [`select_many`](crate::LinqExt::select_many): each element mapped to
/// a sequence, the sequences concatenated.
pub struct SelectMany<T, U, F> {
    outer: VecDeque<T>,
    f: F,
    current: VecDeque<U>,
}

impl<T, U, F: Fn(T) -> Vec<U>> SelectMany<T, U, F> {
    /// The source elements not yet mapped.
    pub closed spec fn spec_outer(&self) -> Seq<T> {
        self.outer@
    }

    /// What is left of the sequence being yielded.
    pub closed spec fn spec_current(&self) -> Seq<U> {
        self.current@
    }

    /// The mapping.
    pub closed spec fn spec_f(&self) -> F {
        self.f
    }

    /// Maps each element of `source` through `f` and concatenates.
    pub fn new(source: Vec<T>, f: F) -> (r: Self)
        ensures
            r.spec_outer() == source@,
            r.spec_current() == Seq::<U>::empty(),
            r.spec_f() == f,
    {
        SelectMany { outer: deque_of(source), f, current: VecDeque::new() }
    }

    /// The next element: from the current sequence, or else from the next
    /// source elements' sequences, mapping as few as needed.
    pub fn next(&mut self) -> (r: Option<U>)
        requires
            forall|i: int| 0 <= i < old(self).spec_outer().len() ==> call_requires(old(self).spec_f(), (#[trigger] old(self).spec_outer()[i],)),
        ensures
            final(self).spec_f() == old(self).spec_f(),
            exists|vs: Seq<Vec<U>>|
                select_many_step(
                    old(self).spec_f(),
                    old(self).spec_outer(),
                    old(self).spec_current(),
                    vs,
                    r,
                    final(self).spec_outer(),
                    final(self).spec_current(),
                ),
    {
        let ghost o = self.outer@;
        let ghost c = self.current@;
        let ghost f = self.f;
        let ghost mut vs: Seq<Vec<U>> = Seq::empty();
        proof {
            assert(flatten_views(vs) =~= Seq::<U>::empty());
            assert(c + flatten_views(vs) =~= c);
        }
        loop
            invariant
                f == self.f,
                f == old(self).spec_f(),
                o == old(self).spec_outer(),
                c == old(self).spec_current(),
                forall|i: int| 0 <= i < o.len() ==> call_requires(f, (#[trigger] o[i],)),
                vs.len() <= o.len(),
                forall|i: int| 0 <= i < vs.len() ==> call_ensures(f, (o[i],), #[trigger] vs[i]),
                self.outer@ == o.skip(vs.len() as int),
                self.current@ == c + flatten_views(vs),
            decreases o.len() - vs.len(), self.current@.len(),
        {
            let ghost cur = self.current@;
            match self.current.pop_front() {
                Some(v) => {
                    assert(select_many_step(f, o, c, vs, Some(v), self.outer@, self.current@));
                    assert(select_many_step(
                        old(self).spec_f(),
                        old(self).spec_outer(),
                        old(self).spec_current(),
                        vs,
                        Some(v),
                        self.spec_outer(),
                        self.spec_current(),
                    ));
                    return Some(v);
                },
                None => {},
            }
            match self.outer.pop_front() {
                None => {
                    assert(cur =~= Seq::<U>::empty());
                    assert(o.skip(vs.len() as int).len() == 0);
                    assert(select_many_step(f, o, c, vs, None, self.outer@, self.current@));
                    assert(select_many_step(
                        old(self).spec_f(),
                        old(self).spec_outer(),
                        old(self).spec_current(),
                        vs,
                        None,
                        self.spec_outer(),
                        self.spec_current(),
                    ));
                    return None;
                },
                Some(x) => {
                    let ghost k = vs.len() as int;
                    assert(x == o[k]);
                    assert(o.skip(k).drop_first() == o.skip(k + 1));
                    let v = (self.f)(x);
                    proof {
                        lemma_flatten_views_push(vs, v);
                        vs = vs.push(v);
                    }
                    self.current = deque_of(v);
                },
            }
        }
    }
}

/// Lazy [`flatten_`](crate::LinqExt::flatten_): the sequences of a sequence,
/// concatenated.
pub struct Flatten<T> {
    outer: VecDeque<Vec<T>>,
    current: VecDeque<T>,
}

impl<T> Flatten<T> {
    /// The sequences not yet opened.
    pub closed spec fn spec_outer(&self) -> Seq<Vec<T>> {
        self.outer@
    }

    /// What is left of the sequence being yielded.
    pub closed spec fn spec_current(&self) -> Seq<T> {
        self.current@
    }

    /// The elements still to come.
    pub open spec fn spec_rest(&self) -> Seq<T> {
        self.spec_current() + flatten_views(self.spec_outer())
    }

    /// Concatenates the sequences of `source`.
    pub fn new(source: Vec<Vec<T>>) -> (r: Self)
        ensures
            r.spec_rest() == flatten_views(source@),
    {
        let r = Flatten { outer: deque_of(source), current: VecDeque::new() };
        assert(r.spec_rest() =~= flatten_views(source@));
        r
    }

    /// The next element.
    pub fn next(&mut self) -> (r: Option<T>)
        ensures
            old(self).spec_rest().len() > 0 ==> r == Some(old(self).spec_rest()[0])
                && final(self).spec_rest() == old(self).spec_rest().drop_first(),
            old(self).spec_rest().len() == 0 ==> r is None && final(self).spec_rest() == old(self).spec_rest(),
    {
        let ghost rest = self.spec_rest();
        loop
            invariant
                rest == old(self).spec_rest(),
                self.spec_rest() == rest,
            decreases self.outer@.len(), self.current@.len(),
        {
            let ghost cur = self.current@;
            let ghost out = self.outer@;
            match self.current.pop_front() {
                Some(v) => {
                    assert((cur + flatten_views(out)).drop_first() =~= cur.drop_first() + flatten_views(out));
                    return Some(v);
                },
                None => {},
            }
            match self.outer.pop_front() {
                None => {
                    assert(flatten_views(out) =~= Seq::<T>::empty());
                    return None;
                },
                Some(next) => {
                    proof {
                        assert(out == seq![next] + out.drop_first());
                        lemma_flatten_views_prepend(next, out.drop_first());
                    }
                    self.current = deque_of(next);
                },
            }
        }
    }
}

/// Flattening a sequence that starts with `v` starts with `v`'s elements.
proof fn lemma_flatten_views_prepend<T>(v: Vec<T>, vs: Seq<Vec<T>>)
    ensures
        flatten_views(seq![v] + vs) == v@ + flatten_views(vs),
    decreases vs.len(),
{
    if vs.len() == 0 {
        assert(seq![v] + vs =~= Seq::<Vec<T>>::empty().push(v));
        lemma_flatten_views_push(Seq::<Vec<T>>::empty(), v);
        assert(flatten_views(Seq::<Vec<T>>::empty()) =~= Seq::<T>::empty());
        assert(flatten_views(vs) =~= Seq::<T>::empty());
    } else {
        let init = vs.drop_last();
        let last = vs.last();
        lemma_flatten_views_prepend(v, init);
        assert(seq![v] + vs =~= (seq![v] + init).push(last));
        assert(vs =~= init.push(last));
        lemma_flatten_views_push(seq![v] + init, last);
        lemma_flatten_views_push(init, last);
    }
}

// ── Chunk ────────────────────────────────────────────────────────────────

/// Lazy [`chunk`](crate::LinqExt::chunk): consecutive batches of `size`
/// elements, the last one possibly shorter.
pub struct Chunk<T> {
    inner: VecDeque<T>,
    size: usize,
    done: bool,
}

impl<T> Chunk<T> {
    /// The elements not yet batched.
    pub closed spec fn spec_rest(&self) -> Seq<T> {
        self.inner@
    }

    /// The batch size.
    pub closed spec fn spec_size(&self) -> usize {
        self.size
    }

    /// Whether the source has run out.
    pub closed spec fn spec_done(&self) -> bool {
        self.done
    }

    /// Batches `source` by `size`.
    pub fn new(source: Vec<T>, size: usize) -> (r: Self)
        ensures
            r.spec_rest() == source@,
            r.spec_size() == size,
            !r.spec_done(),
    {
        Chunk { inner: deque_of(source), size, done: false }
    }

    /// The next batch: up to `size` elements; `None` when there are none.
    pub fn next(&mut self) -> (r: Option<Vec<T>>)
        ensures
            final(self).spec_size() == old(self).spec_size(),
            old(self).spec_done() ==> r is None && final(self).spec_rest() == old(self).spec_rest() && final(self).spec_done(),
            !old(self).spec_done() ==> {
                let k = if old(self).spec_size() < old(self).spec_rest().len() {
                    old(self).spec_size() as int
                } else {
                    old(self).spec_rest().len() as int
                };
                &&& final(self).spec_rest() == old(self).spec_rest().skip(k)
                &&& final(self).spec_done() == (old(self).spec_rest().len() < old(self).spec_size())
                &&& k == 0 ==> r is None
                &&& k > 0 ==> (r matches Some(batch) && batch@ == old(self).spec_rest().take(k))
            },
    {
        if self.done {
            return None;
        }
        let ghost s = self.inner@;
        let mut batch: Vec<T> = Vec::new();
        let mut i: usize = 0;
        while i < self.size
            invariant_except_break
                !self.done,
            invariant
                s == old(self).spec_rest(),
                self.size == old(self).spec_size(),
                !old(self).spec_done(),
                i <= self.size,
                i <= s.len(),
                batch@ == s.take(i as int),
                self.inner@ == s.skip(i as int),
            ensures
                s == old(self).spec_rest(),
                self.size == old(self).spec_size(),
                batch@ == s.take(i as int),
                self.inner@ == s.skip(i as int),
                (self.done && i == s.len() && s.len() < self.size) || (!self.done && i == self.size && self.size <= s.len()),
            decreases self.size - i,
        {
            match self.inner.pop_front() {
                Some(v) => {
                    assert(s.take(i + 1) == s.take(i as int).push(v));
                    assert(s.skip(i as int).drop_first() == s.skip(i + 1));
                    batch.push(v);
                    i = i + 1;
                },
                None => {
                    self.done = true;
                    break;
                },
            }
        }
        if batch.len() == 0 {
            None
        } else {
            Some(batch)
        }
    }
}

// ── Distinct / DistinctBy ────────────────────────────────────────────────

/// One call of [`Distinct::next`]: the first `k` elements equal ones
/// already seen; element `k`, if there is one, is new and is yielded.
pub open spec fn distinct_step<T: PartialEq>(
    rest: Seq<T>,
    seen: Seq<T>,
    k: int,
    r: Option<T>,
    rest2: Seq<T>,
    seen2: Seq<T>,
) -> bool {
    &&& 0 <= k <= rest.len()
    &&& forall|i: int| 0 <= i < k ==> has_key(partial_eqv(), seen, #[trigger] rest[i])
    &&& k < rest.len() ==> {
        &&& !has_key(partial_eqv(), seen, rest[k])
        &&& r == Some(rest[k])
        &&& rest2 == rest.skip(k + 1)
        &&& seen2 == seen.push(rest[k])
    }
    &&& k == rest.len() ==> {
        &&& r is None
        &&& rest2 == Seq::<T>::empty()
        &&& seen2 == seen
    }
}

/// Lazy [`distinct_partial_eq`](crate::LinqExt::distinct_partial_eq): each
/// element unless an equal one came before, compared by `PartialEq`.
pub struct Distinct<T> {
    inner: VecDeque<T>,
    seen: Vec<T>,
}

impl<T: PartialEq + Clone> Distinct<T> {
    /// The elements not yet looked at.
    pub closed spec fn spec_rest(&self) -> Seq<T> {
        self.inner@
    }

    /// The elements yielded so far.
    pub closed spec fn spec_seen(&self) -> Seq<T> {
        self.seen@
    }

    /// The distinct elements of `source`.
    pub fn new(source: Vec<T>) -> (r: Self)
        ensures
            r.spec_rest() == source@,
            r.spec_seen() == Seq::<T>::empty(),
    {
        Distinct { inner: deque_of(source), seen: Vec::new() }
    }

    /// The next element equal to none yielded before.
    pub fn next(&mut self) -> (r: Option<T>)
        requires
            T::obeys_eq_spec(),
            clone_is_identity::<T>(),
        ensures
            exists|k: int|
                distinct_step(old(self).spec_rest(), old(self).spec_seen(), k, r, final(self).spec_rest(), final(self).spec_seen()),
    {
        let ghost s = self.inner@;
        let ghost seen0 = self.seen@;
        let ghost mut k: int = 0;
        loop
            invariant
                T::obeys_eq_spec(),
                clone_is_identity::<T>(),
                s == old(self).spec_rest(),
                seen0 == old(self).spec_seen(),
                self.seen@ == seen0,
                0 <= k <= s.len(),
                self.inner@ == s.skip(k),
                forall|i: int| 0 <= i < k ==> has_key(partial_eqv(), seen0, #[trigger] s[i]),
            decreases s.len() - k,
        {
            match self.inner.pop_front() {
                None => {
                    assert(s.skip(k) =~= Seq::<T>::empty());
                    assert(distinct_step(s, seen0, k, None, self.inner@, self.seen@));
                    assert(distinct_step(old(self).spec_rest(), old(self).spec_seen(), k, None, self.spec_rest(), self.spec_seen()));
                    return None;
                },
                Some(item) => {
                    assert(item == s[k]);
                    assert(s.skip(k).drop_first() == s.skip(k + 1));
                    let mut j: usize = 0;
                    let mut found = false;
                    while j < self.seen.len() && !found
                        invariant
                            T::obeys_eq_spec(),
                            self.seen@ == seen0,
                            j <= seen0.len(),
                            !found ==> forall|q: int| 0 <= q < j ==> !(#[trigger] partial_eqv::<T>()(seen0[q], item)),
                            found ==> has_key(partial_eqv(), seen0, item),
                        decreases seen0.len() - j + if found { 0int } else { 1int },
                    {
                        if self.seen[j].eq(&item) {
                            assert(partial_eqv::<T>()(seen0[j as int], item));
                            found = true;
                        } else {
                            j = j + 1;
                        }
                    }
                    if !found {
                        let c = item.clone();
                        assert(vstd::pervasive::strictly_cloned(item, c));
                        assert(cloned(item, c));
                        self.seen.push(c);
                        assert(distinct_step(s, seen0, k, Some(item), self.inner@, self.seen@));
                        assert(distinct_step(old(self).spec_rest(), old(self).spec_seen(), k, Some(item), self.spec_rest(), self.spec_seen()));
                        return Some(item);
                    }
                    proof {
                        k = k + 1;
                    }
                },
            }
        }
    }
}

/// One call of [`DistinctBy::next`]: `keys` are the keys computed, the
/// first `k` of them already seen; element `k`, if there is one, has a new
/// key and is yielded.
pub open spec fn distinct_by_step<T, K: PartialEq, F: Fn(&T) -> K>(
    key_fn: F,
    rest: Seq<T>,
    seen: Seq<K>,
    k: int,
    keys: Seq<K>,
    r: Option<T>,
    rest2: Seq<T>,
    seen2: Seq<K>,
) -> bool {
    &&& 0 <= k <= rest.len()
    &&& keys.len() == if k < rest.len() { k + 1 } else { k }
    &&& forall|i: int| 0 <= i < keys.len() ==> call_ensures(key_fn, (&rest[i],), #[trigger] keys[i])
    &&& forall|i: int| 0 <= i < k ==> has_key(partial_eqv(), seen, #[trigger] keys[i])
    &&& k < rest.len() ==> {
        &&& !has_key(partial_eqv(), seen, keys[k])
        &&& r == Some(rest[k])
        &&& rest2 == rest.skip(k + 1)
        &&& seen2 == seen.push(keys[k])
    }
    &&& k == rest.len() ==> {
        &&& r is None
        &&& rest2 == Seq::<T>::empty()
        &&& seen2 == seen
    }
}

/// Lazy [`distinct_by_partial_eq`](crate::LinqExt::distinct_by_partial_eq):
/// each element unless one with an equal key came before.
pub struct DistinctBy<T, F, K> {
    inner: VecDeque<T>,
    key_fn: F,
    seen_keys: Vec<K>,
}

impl<T, K: PartialEq, F: Fn(&T) -> K> DistinctBy<T, F, K> {
    /// The elements not yet looked at.
    pub closed spec fn spec_rest(&self) -> Seq<T> {
        self.inner@
    }

    /// The keys of the elements yielded so far.
    pub closed spec fn spec_seen_keys(&self) -> Seq<K> {
        self.seen_keys@
    }

    /// The key function.
    pub closed spec fn spec_key_fn(&self) -> F {
        self.key_fn
    }

    /// The elements of `source` with distinct keys.
    pub fn new(source: Vec<T>, key_fn: F) -> (r: Self)
        ensures
            r.spec_rest() == source@,
            r.spec_seen_keys() == Seq::<K>::empty(),
            r.spec_key_fn() == key_fn,
    {
        DistinctBy { inner: deque_of(source), key_fn, seen_keys: Vec::new() }
    }

    /// The next element whose key equals none yielded before.
    pub fn next(&mut self) -> (r: Option<T>)
        requires
            K::obeys_eq_spec(),
            key_callable(old(self).spec_key_fn(), old(self).spec_rest()),
        ensures
            final(self).spec_key_fn() == old(self).spec_key_fn(),
            exists|k: int, keys: Seq<K>|
                distinct_by_step(
                    old(self).spec_key_fn(),
                    old(self).spec_rest(),
                    old(self).spec_seen_keys(),
                    k,
                    keys,
                    r,
                    final(self).spec_rest(),
                    final(self).spec_seen_keys(),
                ),
    {
        let ghost s = self.inner@;
        let ghost seen0 = self.seen_keys@;
        let ghost kf = self.key_fn;
        let ghost mut keys: Seq<K> = Seq::empty();
        loop
            invariant
                K::obeys_eq_spec(),
                kf == self.key_fn,
                kf == old(self).spec_key_fn(),
                key_callable(kf, s),
                s == old(self).spec_rest(),
                seen0 == old(self).spec_seen_keys(),
                self.seen_keys@ == seen0,
                0 <= keys.len() <= s.len(),
                self.inner@ == s.skip(keys.len() as int),
                forall|i: int| 0 <= i < keys.len() ==> call_ensures(kf, (&s[i],), #[trigger] keys[i]),
                forall|i: int| 0 <= i < keys.len() ==> has_key(partial_eqv(), seen0, #[trigger] keys[i]),
            decreases s.len() - keys.len(),
        {
            let ghost k = keys.len() as int;
            match self.inner.pop_front() {
                None => {
                    assert(s.skip(k) =~= Seq::<T>::empty());
                    assert(distinct_by_step(kf, s, seen0, k, keys, None, self.inner@, self.seen_keys@));
                    assert(distinct_by_step(
                        old(self).spec_key_fn(),
                        old(self).spec_rest(),
                        old(self).spec_seen_keys(),
                        k,
                        keys,
                        None,
                        self.spec_rest(),
                        self.spec_seen_keys(),
                    ));
                    return None;
                },
                Some(item) => {
                    assert(item == s[k]);
                    assert(s.skip(k).drop_first() == s.skip(k + 1));
                    let key = (self.key_fn)(&item);
                    let mut j: usize = 0;
                    let mut found = false;
                    while j < self.seen_keys.len() && !found
                        invariant
                            K::obeys_eq_spec(),
                            self.seen_keys@ == seen0,
                            j <= seen0.len(),
                            !found ==> forall|q: int| 0 <= q < j ==> !(#[trigger] partial_eqv::<K>()(seen0[q], key)),
                            found ==> has_key(partial_eqv(), seen0, key),
                        decreases seen0.len() - j + if found { 0int } else { 1int },
                    {
                        if self.seen_keys[j].eq(&key) {
                            assert(partial_eqv::<K>()(seen0[j as int], key));
                            found = true;
                        } else {
                            j = j + 1;
                        }
                    }
                    proof {
                        keys = keys.push(key);
                    }
                    if !found {
                        self.seen_keys.push(key);
                        assert(distinct_by_step(kf, s, seen0, k, keys, Some(item), self.inner@, self.seen_keys@));
                        assert(distinct_by_step(
                            old(self).spec_key_fn(),
                            old(self).spec_rest(),
                            old(self).spec_seen_keys(),
                            k,
                            keys,
                            Some(item),
                            self.spec_rest(),
                            self.spec_seen_keys(),
                        ));
                        return Some(item);
                    }
                },
            }
        }
    }
}

} // verus!
