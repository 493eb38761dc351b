//! Register identifiers.

use vstd::prelude::*;

verus! {

/// A register identifier, one byte wide. The numbering is abstract: targets
/// map it onto hardware registers as they see fit.
#[derive(Clone, Copy, PartialEq, Eq, Structural, Hash, Debug)]
pub struct Reg(pub u8);

impl Reg {
    /// The context register, identifier 255.
    pub fn ctx() -> (r: Self)
        ensures
            r.0 == 255,
    {
        Reg(255)
    }

    /// Swaps registers 0 and 31 inside a 32-register window; every other
    /// register of the window is returned unchanged. Identifiers outside the
    /// window are first reduced modulo 32.
    pub fn r32_swap_0_and_31(&self) -> (r: Self)
        ensures
            self.0 % 32 == 0 ==> r.0 == 31,
            self.0 % 32 == 31 ==> r.0 == 0,
            !(self.0 % 32 == 0 || self.0 % 32 == 31) ==> r.0 == self.0 % 32,
    {
        match self.0 % 32 {
            0 => Reg(31),
            31 => Reg(0),
            v => Reg(v),
        }
    }

    /// Reduces the register identifier into the 32-register window 0..=31.
    pub fn r32(&self) -> (r: Self)
        ensures
            r.0 == self.0 % 32,
    {
        Reg(self.0 % 32)
    }
}

} // verus!
