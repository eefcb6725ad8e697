use vstd::prelude::*;

verus! {

/// Why a sequence did not contain exactly one element.
#[derive(Debug, Clone, Copy, PartialEq, Eq, Structural)]
pub enum SingleError {
    /// The sequence yielded no elements.
    Empty,
    /// The sequence yielded two or more elements.
    MoreThanOne,
}

impl SingleError {
    /// The message the panicking variants use.
    pub fn message(self) -> (m: &'static str)
        ensures
            self is Empty ==> m@ == "sequence contains no elements"@,
            self is MoreThanOne ==> m@ == "sequence contains more than one element"@,
    {
        match self {
            SingleError::Empty => "sequence contains no elements",
            SingleError::MoreThanOne => "sequence contains more than one element",
        }
    }
}

} // verus!
