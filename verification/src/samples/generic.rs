//! A sample file with a generic struct, a type alias and a generic free
//! function.

use core::marker::PhantomData;
use vstd::prelude::*;

verus! {

/// Doc about AbAStructA
#[derive(Debug)]
pub struct AbAStructA<T> {
    /// Doc about phantom
    phantom: PhantomData<T>,
}

impl<T> AbAStructA<T> {
    /// A value of the phantom-typed sample struct.
    pub fn new() -> AbAStructA<T> {
        AbAStructA { phantom: PhantomData }
    }
}

/// Doc about global gen magic
pub fn global_gen_magic<T>(magic: T) -> (r: T)
    ensures
        r == magic,
{
    magic
}

} // verus!
