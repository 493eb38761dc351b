//! Memory access size tags.

use vstd::prelude::*;

verus! {

/// The width of a memory access, in bits.
#[derive(Clone, Copy, PartialEq, Eq, Structural, Hash, Debug)]
pub enum MemorySize {
    /// An 8-bit access.
    _8,
    /// A 16-bit access.
    _16,
    /// A 32-bit access.
    _32,
    /// A 64-bit access.
    _64,
}

impl Default for MemorySize {
    /// The default access width is 64 bits.
    fn default() -> (r: Self)
        ensures
            r == MemorySize::_64,
    {
        MemorySize::_64
    }
}

/// A value tagged with the width of the memory access it takes part in.
#[derive(Clone, Copy, PartialEq, Eq, Hash, Debug)]
pub struct MemorySized<T> {
    /// The value being accessed.
    pub value: T,
    /// The width of the access.
    pub size: MemorySize,
}

} // verus!
