//! A value with its clean-up.
use vstd::prelude::*;

verus! {

/// A value, and what is to be done with it in the end, by [`DroppableValue::finish`].
#[must_use]
pub struct DroppableValue<T, F> where F: FnMut(&mut T) {
    pub value: T,
    pub drop_fn: F,
}

impl<T, F> DroppableValue<T, F> where F: FnMut(&mut T) {
    /// The value `value`, with `drop_fn` to clean up after it.
    pub fn new(value: T, drop_fn: F) -> (guard: Self)
        ensures
            guard.value == value,
            guard.drop_fn == drop_fn,
    {
        DroppableValue { value, drop_fn }
    }

    /// The value.
    pub fn deref(&self) -> (value: &T)
        ensures
            *value == self.value,
    {
        &self.value
    }

    /// The value, to be changed.
    pub fn deref_mut(&mut self) -> (value: &mut T)
        ensures
            *value == old(self).value,
            final(self).value == *final(value),
            final(self).drop_fn == old(self).drop_fn,
    {
        &mut self.value
    }

    /// Runs the clean-up on the value, and hands back what it left of it.
    pub fn finish(self) -> (value: T)
        requires
            forall|x: &mut T| *x == self.value ==> #[trigger] call_requires(self.drop_fn, (x,)),
        ensures
            exists|x: &mut T|
                *x == self.value && *final(x) == value && #[trigger] call_ensures(
                    self.drop_fn,
                    (x,),
                    (),
                ),
    {
        let mut drop_fn = self.drop_fn;
        let mut value = self.value;
        drop_fn(&mut value);
        value
    }
}

} // verus!
