//! A vector with a limit on its length.

use crate::error::{OrgError, OrgErrorView};
use crate::text::{chars_of, decimal, push_decimal, string_of};
use vstd::prelude::*;

verus! {

/// The most content blocks, and the most sections, that one section may hold.
pub const LIMIT: usize = 64;

/// The error that reports a section with more than `limit` blocks or sections.
pub open spec fn capacity_error(limit: nat) -> OrgErrorView {
    OrgErrorView::ParseError(None, "capacity reached in limited vec: limit == "@ + decimal(limit))
}

/// A vector that takes no more than a fixed number of items.
pub struct LimitedVec<T> {
    vec: Vec<T>,
    limit: usize,
}

impl<T> View for LimitedVec<T> {
    type V = Seq<T>;

    closed spec fn view(&self) -> Seq<T> {
        self.vec@
    }
}

impl<T> Default for LimitedVec<T> {
    /// An empty vector that takes up to `LIMIT` items.
    fn default() -> (r: Self)
        ensures
            r@ == Seq::<T>::empty(),
            r.spec_limit() == LIMIT,
    {
        LimitedVec { vec: Vec::new(), limit: LIMIT }
    }
}

impl<T> LimitedVec<T> {
    /// The number of items that the vector takes.
    pub closed spec fn spec_limit(&self) -> nat {
        self.limit as nat
    }

    /// The items, as an ordinary vector.
    pub fn take(self) -> (v: Vec<T>)
        ensures
            v@ == self@,
    {
        self.vec
    }

    /// The number of items that the vector takes.
    pub fn limit(&self) -> (n: usize)
        ensures
            n == self.spec_limit(),
    {
        self.limit
    }

    /// Appends `item`, or reports that the vector is full and leaves it as it is.
    pub fn push(&mut self, item: T) -> (r: Result<(), OrgError>)
        ensures
            final(self).spec_limit() == old(self).spec_limit(),
            match r {
                Ok(_) => old(self)@.len() < old(self).spec_limit() && final(self)@ == old(
                    self,
                )@.push(item),
                Err(e) => old(self)@.len() >= old(self).spec_limit() && final(self)@ == old(self)@
                    && e@ == capacity_error(old(self).spec_limit()),
            },
    {
        if self.vec.len() < self.limit() {
            self.vec.push(item);
            Ok(())
        } else {
            let mut message = chars_of("capacity reached in limited vec: limit == ");
            push_decimal(self.limit(), &mut message);
            Err(OrgError::ParseError(None, string_of(message.as_slice())))
        }
    }
}

} // verus!
