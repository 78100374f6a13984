//! A sample file with one documented struct and one documented function.

use vstd::prelude::*;

verus! {

/// This is a test struct
#[derive(Clone, Debug)]
pub struct TestStruct<T> {
    /// A field with documentation
    field: T,
}

impl<T> TestStruct<T> {
    /// A struct wrapping the given value.
    pub fn new(field: T) -> TestStruct<T> {
        TestStruct { field }
    }
}

/// A test function
pub fn test_function() -> (r: i32)
    ensures
        r == 42,
{
    42
}

} // verus!
