//! Integer types that `sum_` and `sum_by` add up, and the mathematical sum
//! of a sequence of them.
use vstd::prelude::*;

verus! {

/// An integer type whose values can be added up: the sum, its partial sums
/// included, must stay within the type (adding past its bounds is an
/// overflow).
pub trait Summable: Sized + Copy {
    /// The value as a mathematical integer.
    spec fn spec_value(self) -> int;

    /// `v` is a value of the type.
    spec fn fits(v: int) -> bool;

    /// Every value of the type fits, and so does zero.
    proof fn lemma_fits(x: Self)
        ensures
            Self::fits(x.spec_value()),
            Self::fits(0),
    ;

    /// Zero.
    fn zero() -> (r: Self)
        ensures
            r.spec_value() == 0,
    ;

    /// `self + other`, which must fit.
    fn plus(self, other: Self) -> (r: Self)
        requires
            Self::fits(self.spec_value() + other.spec_value()),
        ensures
            r.spec_value() == self.spec_value() + other.spec_value(),
    ;
}

impl Summable for i32 {
    open spec fn spec_value(self) -> int {
        self as int
    }

    open spec fn fits(v: int) -> bool {
        i32::MIN <= v <= i32::MAX
    }

    proof fn lemma_fits(x: Self) {
    }

    fn zero() -> (r: Self) {
        0
    }

    fn plus(self, other: Self) -> (r: Self) {
        self + other
    }
}

impl Summable for i64 {
    open spec fn spec_value(self) -> int {
        self as int
    }

    open spec fn fits(v: int) -> bool {
        i64::MIN <= v <= i64::MAX
    }

    proof fn lemma_fits(x: Self) {
    }

    fn zero() -> (r: Self) {
        0
    }

    fn plus(self, other: Self) -> (r: Self) {
        self + other
    }
}

impl Summable for u32 {
    open spec fn spec_value(self) -> int {
        self as int
    }

    open spec fn fits(v: int) -> bool {
        0 <= v <= u32::MAX
    }

    proof fn lemma_fits(x: Self) {
    }

    fn zero() -> (r: Self) {
        0
    }

    fn plus(self, other: Self) -> (r: Self) {
        self + other
    }
}

impl Summable for u64 {
    open spec fn spec_value(self) -> int {
        self as int
    }

    open spec fn fits(v: int) -> bool {
        0 <= v <= u64::MAX
    }

    proof fn lemma_fits(x: Self) {
    }

    fn zero() -> (r: Self) {
        0
    }

    fn plus(self, other: Self) -> (r: Self) {
        self + other
    }
}

impl Summable for usize {
    open spec fn spec_value(self) -> int {
        self as int
    }

    open spec fn fits(v: int) -> bool {
        0 <= v <= usize::MAX
    }

    proof fn lemma_fits(x: Self) {
    }

    fn zero() -> (r: Self) {
        0
    }

    fn plus(self, other: Self) -> (r: Self) {
        self + other
    }
}

/// The values summed are the numbers themselves, and a sum fits exactly
/// when it lies within the type's range.
pub proof fn lemma_summed_values_are_the_numbers()
    ensures
        forall|x: i32| #[trigger] <i32 as Summable>::spec_value(x) == x,
        forall|x: i64| #[trigger] <i64 as Summable>::spec_value(x) == x,
        forall|x: u32| #[trigger] <u32 as Summable>::spec_value(x) == x,
        forall|x: u64| #[trigger] <u64 as Summable>::spec_value(x) == x,
        forall|x: usize| #[trigger] <usize as Summable>::spec_value(x) == x,
        forall|v: int| #[trigger] <i32 as Summable>::fits(v) == (i32::MIN <= v <= i32::MAX),
        forall|v: int| #[trigger] <i64 as Summable>::fits(v) == (i64::MIN <= v <= i64::MAX),
        forall|v: int| #[trigger] <u32 as Summable>::fits(v) == (0 <= v <= u32::MAX),
        forall|v: int| #[trigger] <u64 as Summable>::fits(v) == (0 <= v <= u64::MAX),
        forall|v: int| #[trigger] <usize as Summable>::fits(v) == (0 <= v <= usize::MAX),
{
}

/// The sum of an empty sequence is zero, and a sequence one element
/// longer sums to the earlier sum plus that element.
pub proof fn lemma_total_steps<S: Summable>(s: Seq<S>, x: S)
    ensures
        seq_total(Seq::<S>::empty()) == 0,
        seq_total(s.push(x)) == seq_total(s) + x.spec_value(),
{
    assert(s.push(x).drop_last() =~= s);
}

/// The sum of `s`, as a mathematical integer.
pub open spec fn seq_total<S: Summable>(s: Seq<S>) -> int
    decreases s.len(),
{
    if s.len() == 0 {
        0
    } else {
        seq_total(s.drop_last()) + s.last().spec_value()
    }
}

/// Every partial sum of `s`, taken front to back, fits in `S`.
pub open spec fn partial_sums_fit<S: Summable>(s: Seq<S>) -> bool {
    forall|k: int| 0 <= k <= s.len() ==> S::fits(#[trigger] seq_total(s.take(k)))
}

/// Adds up `items` front to back.
pub(crate) fn total_of<S: Summable>(items: &[S]) -> (r: S)
    requires
        partial_sums_fit(items@),
    ensures
        r.spec_value() == seq_total(items@),
{
    let mut acc = S::zero();
    let mut i: usize = 0;
    proof {
        assert(items@.take(0) =~= Seq::<S>::empty());
    }
    while i < items.len()
        invariant
            i <= items@.len(),
            partial_sums_fit(items@),
            acc.spec_value() == seq_total(items@.take(i as int)),
        decreases items@.len() - i,
    {
        proof {
            assert(items@.take(i + 1).drop_last() =~= items@.take(i as int));
            assert(S::fits(seq_total(items@.take(i + 1))));
        }
        acc = acc.plus(items[i]);
        i = i + 1;
    }
    proof {
        assert(items@.take(items@.len() as int) =~= items@);
    }
    acc
}

} // verus!
