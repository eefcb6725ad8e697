//! Source generators: free functions that create a sequence rather than
//! transforming one (C#'s `Enumerable.Range`, `Repeat` and `Empty`).
use vstd::prelude::*;

verus! {

/// The integers `start, start + 1, ..., start + count - 1`.
/// C# analogue: `Enumerable.Range(start, count)`.
pub fn range(start: i32, count: usize) -> (r: Vec<i32>)
    requires
        start + count <= i32::MAX + 1,
    ensures
        r@.len() == count,
        forall|i: int| 0 <= i < count ==> #[trigger] r@[i] == start + i,
{
    let mut out: Vec<i32> = Vec::new();
    let mut i: usize = 0;
    while i < count
        invariant
            start + count <= i32::MAX + 1,
            i <= count,
            out@.len() == i,
            forall|j: int| 0 <= j < i ==> #[trigger] out@[j] == start + j,
        decreases count - i,
    {
        let v: i32 = (start as i64 + i as i64) as i32;
        out.push(v);
        i = i + 1;
    }
    out
}

/// `count` clones of `value`. C# analogue: `Enumerable.Repeat(value, count)`.
pub fn repeat<T: Clone>(value: T, count: usize) -> (r: Vec<T>)
    ensures
        r@.len() == count,
        forall|i: int| 0 <= i < count ==> cloned(value, #[trigger] r@[i]),
{
    let mut out: Vec<T> = Vec::new();
    let mut i: usize = 0;
    while i < count
        invariant
            i <= count,
            out@.len() == i,
            forall|j: int| 0 <= j < i ==> cloned(value, #[trigger] out@[j]),
        decreases count - i,
    {
        let c = value.clone();
        out.push(c);
        i = i + 1;
    }
    out
}

/// No elements. C# analogue: `Enumerable.Empty<T>()`.
pub fn empty<T>() -> (r: Vec<T>)
    ensures
        r@ == Seq::<T>::empty(),
{
    Vec::new()
}

} // verus!
