//! A sample file from a deeply nested directory: an enum, a struct
//! holding it, and their constructors.

use vstd::prelude::*;

verus! {

pub enum DeepFoo {
    Variant1,
    Variant2,
}

impl DeepFoo {
    /// The first variant.
    pub fn new() -> (r: DeepFoo)
        ensures
            r is Variant1,
    {
        DeepFoo::Variant1
    }
}

pub struct DeepFoobar {
    pub foo: DeepFoo,
}

impl DeepFoobar {
    /// A value holding the given inner enum.
    pub fn new(foo: DeepFoo) -> (r: DeepFoobar)
        ensures
            r.foo == foo,
    {
        DeepFoobar { foo }
    }
}

} // verus!
