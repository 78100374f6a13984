//! A sample library file mixing a struct, an enum, a trait and methods,
//! used to look at the spacing of rewritten implementation blocks.

use vstd::prelude::*;

verus! {

pub struct MyStruct {
    pub field1: i32,
    pub field2: String,
}

pub enum MyEnum {
    MyStruct(MyStruct),
    Other,
}

#[allow(dead_code)]
impl MyEnum {
    fn magic_self(&self) -> (r: u8)
        ensures
            r == 42,
    {
        42
    }

    fn magic_mut_self(&mut self) -> (r: u8)
        ensures
            r == 42,
            *final(self) == *old(self),
    {
        42
    }

    fn magic() -> (r: u8)
        ensures
            r == 42,
    {
        42
    }
}

impl MyStruct {
    pub fn new(field1: i32, field2: String) -> (r: MyStruct)
        ensures
            r.field1 == field1,
            r.field2 == field2,
    {
        MyStruct { field1, field2 }
    }
}

pub trait MyTrait {
    fn my_method(&self);
}

impl MyTrait for MyStruct {
    fn my_method(&self) {
    }
}

} // verus!
