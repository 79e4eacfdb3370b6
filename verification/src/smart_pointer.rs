//! A minimal owning box and a string-carrying pointer type, the simplest
//! shapes of the ownership idioms the rest of the crate builds out.

use vstd::prelude::*;

verus! {

/// A value wrapped in a single-owner box.
pub struct MyBox<T> {
    inner: T,
}

impl<T> MyBox<T> {
    /// The boxed value.
    pub closed spec fn value(self) -> T {
        self.inner
    }

    pub fn new(x: T) -> (b: MyBox<T>)
        ensures
            b.value() == x,
    {
        MyBox { inner: x }
    }

    /// Borrows the boxed value, as dereferencing would.
    pub fn get(&self) -> (r: &T)
        ensures
            *r == self.value(),
    {
        &self.inner
    }

    /// Consumes the box and hands the value back.
    pub fn into_inner(self) -> (r: T)
        ensures
            r == self.value(),
    {
        self.inner
    }
}

/// A pointer-like owner of a string, destroyed explicitly or when it goes
/// out of scope.
pub struct CoustomSmartPointer {
    pub data: String,
}

} // verus!
