//! Helpers shared by device drivers.

use vstd::prelude::*;

verus! {

/// A number that is at most `MAX_INCLUSIVE`.
#[derive(Clone, Copy, Debug, PartialEq, Eq)]
pub struct BoundedUsize<const MAX_INCLUSIVE: usize>(usize);

impl<const MAX_INCLUSIVE: usize> BoundedUsize<MAX_INCLUSIVE> {
    /// The number.
    pub closed spec fn view(&self) -> usize {
        self.0
    }

    /// The number is within its bound.
    pub open spec fn wf(&self) -> bool {
        self@ <= MAX_INCLUSIVE
    }

    /// The bounded number `value`, which must be at most `MAX_INCLUSIVE`.
    pub fn new(value: usize) -> (r: Self)
        requires
            value <= MAX_INCLUSIVE,
        ensures
            r@ == value,
            r.wf(),
    {
        Self(value)
    }

    /// The bounded number `value`, if it is at most `MAX_INCLUSIVE`.
    pub fn try_new(value: usize) -> (r: Option<Self>)
        ensures
            r.is_some() == (value <= MAX_INCLUSIVE),
            r.is_some() ==> r.unwrap()@ == value && r.unwrap().wf(),
    {
        if value <= MAX_INCLUSIVE {
            Some(Self(value))
        } else {
            None
        }
    }

    /// The number.
    pub fn get(&self) -> (r: usize)
        ensures
            r == self@,
    {
        self.0
    }
}

} // verus!
