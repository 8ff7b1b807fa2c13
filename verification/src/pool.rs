use std::marker::PhantomData;
use vstd::prelude::*;

verus! {

/// A value factory: `new_fn` makes a fresh value, `reset_fn` takes one back.
#[verifier::reject_recursive_types(T)]
pub struct Pool<T, N, R> where N: Fn() -> T, R: Fn(T) {
    new_fn: N,
    reset_fn: R,
    marker: PhantomData<T>,
}

impl<T, N, R> Pool<T, N, R> where N: Fn() -> T, R: Fn(T) {
    /// The function that makes a new value.
    pub closed spec fn maker(&self) -> N {
        self.new_fn
    }

    /// The function that takes a value back.
    pub closed spec fn resetter(&self) -> R {
        self.reset_fn
    }

    pub fn create(new: N, reset: R) -> (r: Self)
        ensures
            r.maker() == new,
            r.resetter() == reset,
    {
        Pool { new_fn: new, reset_fn: reset, marker: PhantomData }
    }

    /// Hands out a fresh value made by the pool's factory function.
    pub fn use_value(&self) -> (r: T)
        requires
            self.maker().requires(()),
        ensures
            self.maker().ensures((), r),
    {
        let new_func = &self.new_fn;
        new_func()
    }
}

} // verus!
