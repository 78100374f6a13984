//! A sample file of structs, an enum, a trait and several implementation
//! blocks for one type.

use vstd::prelude::*;

verus! {

/// Doc about AaaaStructA
#[derive(Clone, Debug)]
pub struct AaaaStructA;

/// Doc about AaaaStructB
#[derive(Clone, Debug)]
pub struct AaaaStructB {
    /// Doc about `aaaa_struct_a`
    aaaa_struct_a: AaaaStructA,
}

impl AaaaStructB {
    /// A struct carrying the unit sample struct.
    pub fn new() -> AaaaStructB {
        AaaaStructB { aaaa_struct_a: AaaaStructA }
    }

    /// Magic
    pub fn magic() -> (r: u8)
        ensures
            r == 42,
    {
        42
    }
}

impl AaaaStructB {
    /// Magic self
    pub fn magic_self(self) -> (r: u8)
        ensures
            r == 42,
    {
        42
    }
}

impl AaaaStructB {
    /// Magic self ref
    pub fn magic_self_ref(&self) -> (r: u8)
        ensures
            r == 42,
    {
        42
    }
}

impl AaaaStructB {
    /// Magic self ref mut
    pub fn magic_self_ref_mut(&mut self) -> (r: u8)
        ensures
            r == 42,
            *final(self) == *old(self),
    {
        42
    }
}

impl AaaaStructB {
    /// Magic self ref arg
    pub fn magic_self_ref_arg(&self, magic: u8) -> (r: u8)
        ensures
            r == magic,
    {
        magic
    }
}

pub trait MagicTrait: Sized {
    /// Magic
    fn trait_magic() -> (r: u8)
        ensures
            r == 42,
    {
        42
    }

    /// Magic self
    fn trait_magic_self(self) -> u8;

    /// Magic self ref
    fn trait_magic_self_ref(&self) -> u8;

    /// Magic self ref mut
    fn trait_magic_self_ref_mut(&mut self) -> u8;

    /// Magic self ref arg
    fn trait_magic_self_ref_arg(&self, magic: u8) -> (r: u8)
        ensures
            r == magic,
    ;
}

impl MagicTrait for AaaaStructB {
    /// Magic self
    fn trait_magic_self(self) -> u8 {
        42
    }

    /// Magic self ref
    fn trait_magic_self_ref(&self) -> u8 {
        42
    }

    /// Magic self ref mut
    fn trait_magic_self_ref_mut(&mut self) -> u8 {
        42
    }

    /// Magic self ref arg
    fn trait_magic_self_ref_arg(&self, magic: u8) -> (r: u8) {
        magic
    }
}

/// Doc about AaaaEnum
#[derive(Clone, Debug)]
pub enum AaaaEnum {
    /// Doc about AaaaA variant
    AaaaA(AaaaStructA),
    /// Doc about AaaaB variant
    AaaaB(AaaaStructB),
}

impl AaaaEnum {
    /// Much magic
    /// Very good number
    /// 42 is magic
    pub fn magic() -> (r: u8)
        ensures
            r == 42,
    {
        42
    }

    /// More magic
    /// Very good number
    /// 42 is magic
    pub fn more_magic() -> (r: u8)
        ensures
            r == 42,
    {
        42
    }
}

} // verus!
