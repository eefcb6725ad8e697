//! Row sources that are pulled one row at a time, possibly without end, and
//! the streaming in-memory interpretation of an unordered query over them.
use vstd::prelude::*;

use core::marker::PhantomData;
use crate::window::limit_of;
use vstd::arithmetic::div_mod::{lemma_add_mod_noop, lemma_small_mod};

verus! {

/// A source of rows, pulled one at a time. It may be endless.
pub trait RowStream<'s, Row: 's> {
    /// The row the `i`-th pull from now yields; `None` where the source has
    /// run out. A source defined outside this crate that does not define
    /// it leaves it unknown.
    open spec fn spec_at(&self, i: nat) -> Option<Row> {
        arbitrary()
    }

    /// The next row, or `None` when the source has run out. Either way the
    /// source moves on by one.
    fn pull(&mut self) -> (r: Option<&'s Row>)
        ensures
            match r {
                Some(row) => old(self).spec_at(0) == Some(*row),
                None => old(self).spec_at(0) is None,
            },
            forall|i: nat| #[trigger] final(self).spec_at(i) == old(self).spec_at(i + 1),
    ;
}

/// The rows of a slice, in order, then nothing.
pub struct SliceRows<'s, Row> {
    rows: &'s [Row],
    pos: usize,
}

impl<'s, Row> SliceRows<'s, Row> {
    /// The position never passes the end.
    #[verifier::type_invariant]
    spec fn pos_in_bounds(&self) -> bool {
        self.pos <= self.rows@.len()
    }

    /// The rows of `rows`, from the first.
    pub fn new(rows: &'s [Row]) -> (r: Self)
        ensures
            forall|i: nat| #[trigger] r.spec_at(i) == if i < rows@.len() { Some(rows@[i as int]) } else { None },
    {
        SliceRows { rows, pos: 0 }
    }
}

impl<'s, Row> RowStream<'s, Row> for SliceRows<'s, Row> {
    closed spec fn spec_at(&self, i: nat) -> Option<Row> {
        if self.pos + i < self.rows@.len() {
            Some(self.rows@[self.pos + i])
        } else {
            None
        }
    }

    fn pull(&mut self) -> (r: Option<&'s Row>) {
        proof {
            use_type_invariant(&*self);
        }
        if self.pos < self.rows.len() {
            let row = &self.rows[self.pos];
            self.pos = self.pos + 1;
            Some(row)
        } else {
            None
        }
    }
}

/// The rows of a slice, over and over without end (nothing, if the slice
/// is empty).
pub struct CycleRows<'s, Row> {
    rows: &'s [Row],
    pos: usize,
}

impl<'s, Row> CycleRows<'s, Row> {
    /// The position is inside the slice, or zero for an empty one.
    #[verifier::type_invariant]
    spec fn pos_in_bounds(&self) -> bool {
        self.pos < self.rows@.len() || self.pos == 0
    }

    /// The rows of `rows`, cycled, from the first.
    pub fn new(rows: &'s [Row]) -> (r: Self)
        ensures
            forall|i: nat| #[trigger] r.spec_at(i) == if rows@.len() == 0 {
                None
            } else {
                Some(rows@[(i % rows@.len()) as int])
            },
    {
        CycleRows { rows, pos: 0 }
    }
}

impl<'s, Row> RowStream<'s, Row> for CycleRows<'s, Row> {
    closed spec fn spec_at(&self, i: nat) -> Option<Row> {
        if self.rows@.len() == 0 {
            None
        } else {
            Some(self.rows@[((self.pos + i) % (self.rows@.len() as int)) as int])
        }
    }

    fn pull(&mut self) -> (r: Option<&'s Row>) {
        proof {
            use_type_invariant(&*self);
        }
        let n = self.rows.len();
        if n == 0 {
            return None;
        }
        let ghost p = self.pos as int;
        let row = &self.rows[self.pos];
        proof {
            lemma_small_mod(p as nat, n as nat);
        }
        self.pos = if self.pos + 1 == n { 0 } else { self.pos + 1 };
        proof {
            assert forall|i: nat| #[trigger] self.spec_at(i) == old(self).spec_at(i + 1) by {
                let m = n as int;
                lemma_add_mod_noop(p + 1, i as int, m);
                lemma_add_mod_noop(self.pos as int, i as int, m);
                lemma_small_mod(self.pos as nat, n as nat);
                assert((p + 1) % m == self.pos as int) by {
                    if p + 1 == m {
                        vstd::arithmetic::div_mod::lemma_mod_self_0(m);
                    } else {
                        lemma_small_mod((p + 1) as nat, n as nat);
                    }
                }
                assert(p + (i + 1) == (p + 1) + i);
            }
        }
        Some(row)
    }
}

/// Whether the `i`-th row of `at` exists and `keep` keeps it.
pub open spec fn kept_at<Row>(at: spec_fn(nat) -> Option<Row>, keep: spec_fn(Row) -> bool, i: nat) -> bool {
    match at(i) {
        Some(row) => keep(row),
        None => false,
    }
}

/// How many of the first `n` rows of `at` exist and are kept.
pub open spec fn kept_within<Row>(at: spec_fn(nat) -> Option<Row>, keep: spec_fn(Row) -> bool, n: nat) -> nat
    decreases n,
{
    if n == 0 {
        0
    } else {
        kept_within(at, keep, (n - 1) as nat) + if kept_at(at, keep, (n - 1) as nat) { 1nat } else { 0nat }
    }
}

/// The first `n` rows of `at` all exist.
pub open spec fn present_within<Row>(at: spec_fn(nat) -> Option<Row>, n: nat) -> bool {
    forall|i: nat| i < n ==> (#[trigger] at(i)) is Some
}

/// Within its first `n` rows, `at` runs out or holds more than `skip` kept
/// rows: a scan that passes over `skip` kept rows ends there.
pub open spec fn answered_within<Row>(at: spec_fn(nat) -> Option<Row>, keep: spec_fn(Row) -> bool, skip: nat, n: nat) -> bool {
    !present_within(at, n) || kept_within(at, keep, n) > skip
}

/// Which rows a streaming query keeps.
pub trait RowFilter<Row> {
    /// Whether the query keeps `row`.
    spec fn spec_keeps(&self, row: Row) -> bool;

    /// Computes [`RowFilter::spec_keeps`].
    fn keeps(&self, row: &Row) -> (r: bool)
        ensures
            r == self.spec_keeps(*row),
    ;
}

/// The streaming in-memory interpretation of an unordered query over a
/// [`RowStream`]: rows are pulled as they are asked for, and none is
/// copied.
pub struct Streamed<'s, Row, F, S> {
    filter: F,
    src: S,
    skip: u64,
    left: Option<u64>,
    _rows: PhantomData<&'s Row>,
}

impl<'s, Row: 's, F: RowFilter<Row>, S: RowStream<'s, Row>> Streamed<'s, Row, F, S> {
    /// Starts a scan of `src` that keeps what `filter` keeps, passes over
    /// `skip` kept rows and yields at most `left` rows.
    pub(crate) fn new(filter: F, src: S, skip: u64, left: Option<u64>) -> (r: Self)
        ensures
            r.spec_filter() == filter,
            r.spec_source() == src,
            r.spec_skip() == skip,
            r.spec_left() == limit_of(left),
    {
        Streamed { filter, src, skip, left, _rows: PhantomData }
    }

    /// The filter.
    pub closed spec fn spec_filter(&self) -> F {
        self.filter
    }

    /// The source, as far as it has been pulled.
    pub closed spec fn spec_source(&self) -> S {
        self.src
    }

    /// The rows still to be pulled from the source.
    pub open spec fn spec_rows(&self) -> spec_fn(nat) -> Option<Row> {
        |i: nat| self.spec_source().spec_at(i)
    }

    /// Which rows are kept.
    pub open spec fn spec_keep(&self) -> spec_fn(Row) -> bool {
        |row: Row| self.spec_filter().spec_keeps(row)
    }

    /// How many kept rows the `OFFSET` still passes over.
    pub closed spec fn spec_skip(&self) -> nat {
        self.skip as nat
    }

    /// How many rows the `LIMIT` still allows, if there is one.
    pub closed spec fn spec_left(&self) -> Option<nat> {
        limit_of(self.left)
    }

    /// Always streaming: rows are examined as they are asked for.
    pub fn is_streaming(&self) -> (r: bool)
        ensures
            r,
    {
        true
    }

    /// The next row. Once the `LIMIT` is used up this is `None`, and the
    /// source is not pulled. Otherwise the source is pulled up to and
    /// including the row returned: the `k + 1` rows pulled all exist but
    /// possibly the last, the kept ones before the last are exactly those
    /// the `OFFSET` passes over, and the last is the row returned, or the
    /// end of the source. The scan must end: the limit is used up, or
    /// somewhere ahead the source runs out or holds a row to return.
    pub fn next(&mut self) -> (r: Option<&'s Row>)
        requires
            old(self).spec_left() == Some(0nat) || exists|n: nat|
                answered_within(old(self).spec_rows(), old(self).spec_keep(), old(self).spec_skip(), n),
        ensures
            final(self).spec_filter() == old(self).spec_filter(),
            old(self).spec_left() == Some(0nat) ==> {
                &&& r is None
                &&& final(self).spec_source() == old(self).spec_source()
                &&& final(self).spec_left() == old(self).spec_left()
            },
            old(self).spec_left() != Some(0nat) ==> exists|k: nat|
                {
                    &&& present_within(old(self).spec_rows(), k)
                    &&& forall|i: nat| #[trigger] final(self).spec_source().spec_at(i) == old(self).spec_source().spec_at(k + 1 + i)
                    &&& final(self).spec_skip() + kept_within(old(self).spec_rows(), old(self).spec_keep(), k) == old(self).spec_skip()
                    &&& match r {
                        Some(row) => {
                            &&& old(self).spec_source().spec_at(k) == Some(*row)
                            &&& old(self).spec_filter().spec_keeps(*row)
                            &&& kept_within(old(self).spec_rows(), old(self).spec_keep(), k) == old(self).spec_skip()
                            &&& final(self).spec_left() == match old(self).spec_left() {
                                Some(n) => Some((n - 1) as nat),
                                None => None,
                            }
                        },
                        None => {
                            &&& old(self).spec_source().spec_at(k) is None
                            &&& final(self).spec_left() == old(self).spec_left()
                        },
                    }
                },
    {
        if self.left == Some(0u64) {
            return None;
        }
        let ghost at0 = old(self).spec_rows();
        let ghost keep = old(self).spec_keep();
        let ghost skip0 = old(self).skip as nat;
        let ghost n: nat = choose|n: nat| answered_within(at0, keep, skip0, n);
        let ghost mut c: nat = 0;
        proof {
            assert forall|i: nat| #[trigger] self.src.spec_at(i) == at0(c + i) by {}
        }
        loop
            invariant
                self.filter == old(self).filter,
                self.left == old(self).left,
                self.left != Some(0u64),
                at0 == old(self).spec_rows(),
                keep == old(self).spec_keep(),
                skip0 == old(self).skip,
                answered_within(at0, keep, skip0, n),
                c <= n,
                forall|i: nat| #[trigger] self.src.spec_at(i) == at0(c + i),
                present_within(at0, c),
                kept_within(at0, keep, c) + self.skip == skip0,
            decreases n - c,
        {
            proof {
                if c == n {
                    assert(false);
                }
            }
            let ghost before = self.src;
            let pulled = self.src.pull();
            proof {
                assert(before.spec_at(0) == at0(c + 0));
            }
            match pulled {
                None => {
                    proof {
                        assert forall|i: nat| #[trigger] self.src.spec_at(i) == old(self).spec_source().spec_at(c + 1 + i) by {
                            assert(self.src.spec_at(i) == before.spec_at(i + 1));
                            assert(before.spec_at(i + 1) == at0(c + (i + 1)));
                        }
                    }
                    return None;
                },
                Some(row) => {
                    let kept = self.filter.keeps(row);
                    proof {
                        assert(at0(c) == Some(*row));
                        assert(kept_at(at0, keep, c) == kept);
                        assert(kept_within(at0, keep, c + 1) == kept_within(at0, keep, c) + if kept { 1nat } else { 0nat });
                        assert forall|i: nat| #[trigger] self.src.spec_at(i) == at0((c + 1) + i) by {
                            assert(self.src.spec_at(i) == before.spec_at(i + 1));
                            assert(before.spec_at(i + 1) == at0(c + (i + 1)));
                        }
                        assert forall|i: nat| i < c + 1 implies (#[trigger] at0(i)) is Some by {
                            if i < c {
                                assert(at0(i) is Some);
                            }
                        }
                    }
                    if kept && self.skip == 0 {
                        match self.left {
                            Some(m) => {
                                self.left = Some(m - 1);
                            },
                            None => {},
                        }
                        proof {
                            assert forall|i: nat| #[trigger] self.src.spec_at(i) == old(self).spec_source().spec_at(c + 1 + i) by {
                                assert(self.src.spec_at(i) == at0((c + 1) + i));
                            }
                        }
                        return Some(row);
                    }
                    if kept {
                        self.skip = self.skip - 1;
                    }
                    proof {
                        c = c + 1;
                    }
                },
            }
        }
    }
}

} // verus!
