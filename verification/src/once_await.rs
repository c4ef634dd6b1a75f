//! A slot that holds at most one value, written once.

use vstd::prelude::*;

verus! {

/// A slot that is empty until the first write fills it for good.
#[derive(Debug)]
pub struct OnceAwait<T> {
    pub value: Option<T>,
}

/// What can be filled once.
pub trait OnceFulfiller<T> {
    /// What the slot holds.
    spec fn spec_value(&self) -> Option<T>;

    /// Fills the slot with `value` if it is empty, and does nothing if it is
    /// full.
    fn try_init(&mut self, value: T)
        ensures
            final(self).spec_value() == (if old(self).spec_value() is Some {
                old(self).spec_value()
            } else {
                Some(value)
            }),
    ;
}

impl<T> OnceFulfiller<T> for OnceAwait<T> {
    open spec fn spec_value(&self) -> Option<T> {
        self.value
    }

    fn try_init(&mut self, value: T) {
        if self.value.is_some() {
            return ;
        }
        self.value = Some(value);
    }
}

impl<T> OnceAwait<T> {
    /// An empty slot.
    pub fn new() -> (r: Self)
        ensures
            r.value is None,
    {
        OnceAwait { value: None }
    }

    /// The value, once it was written. On an empty slot a reader has to
    /// wait: `None`.
    pub fn get(&self) -> (r: Option<&T>)
        ensures
            r is Some <==> self.value is Some,
            r is Some ==> *r->0 == self.value->0,
    {
        self.value.as_ref()
    }
}

} // verus!
