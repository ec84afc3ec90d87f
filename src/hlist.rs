//! Heterogeneous lists: a product of values whose types may all differ.
use vstd::prelude::*;

verus! {

/// A heterogeneous list: `HNil`, or an `HCons` whose tail is itself a list.
pub trait HList: Sized {
    /// This list with `x` in front.
    fn cons<X>(self, x: X) -> (r: HCons<X, Self>)
        ensures
            r == HCons(x, self),
    {
        HCons(x, self)
    }
}

/// The empty list.
#[derive(Clone, Copy, Debug, Eq, Hash, Ord, PartialEq, PartialOrd)]
pub struct HNil;

impl HList for HNil {

}

/// A head element in front of a tail list.
#[derive(Clone, Copy, Debug, Eq, Hash, Ord, PartialEq, PartialOrd)]
pub struct HCons<H, T>(pub H, pub T);

impl<H, T> HCons<H, T> {
    /// The head element of this list.
    pub fn head(&self) -> (r: &H)
        ensures
            *r == self.0,
    {
        &self.0
    }

    /// The tail of this list.
    pub fn tail(&self) -> (r: &T)
        ensures
            *r == self.1,
    {
        &self.1
    }
}

impl<H, T: HList> HList for HCons<H, T> {

}

impl View for HNil {
    type V = HNil;

    open spec fn view(&self) -> HNil {
        HNil
    }
}

impl<H: View, T: View> View for HCons<H, T> {
    type V = HCons<H::V, T::V>;

    open spec fn view(&self) -> HCons<H::V, T::V> {
        HCons(self.0@, self.1@)
    }
}

} // verus!
