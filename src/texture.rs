use vstd::prelude::*;

verus! {

/// A texture that has the same value everywhere.
pub struct Uniform<T> {
    pub val: T,
}

impl<T> Uniform<T> {
    /// Creates a texture whose value is `val` at every coordinate.
    pub fn new(val: T) -> (r: Self)
        ensures
            r.val == val,
    {
        Self { val }
    }

    /// The value of the texture, wherever it is sampled.
    pub fn value(&self) -> (r: &T)
        ensures
            *r == self.val,
    {
        &self.val
    }
}

} // verus!
