//! Exact copies of values.
//!
//! Replicated state is propagated by value: a merge copies entries out of
//! the other replica, and a delta copies events out of the log.  Such a
//! copy must be provably equal to its source, which a derived `Clone`
//! does not state; types stored in replicated containers implement this
//! trait instead.

use vstd::prelude::*;

verus! {

/// A copy that is equal to the value it was taken from.
pub trait ExactClone: Sized {
    fn dup(&self) -> (r: Self)
        ensures
            r == *self,
    ;
}

impl ExactClone for String {
    fn dup(&self) -> (r: Self)
        ensures
            r == *self,
    {
        self.clone()
    }
}

impl ExactClone for i64 {
    fn dup(&self) -> (r: Self)
        ensures
            r == *self,
    {
        *self
    }
}

} // verus!
