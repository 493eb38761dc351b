//! Flat tag types for arithmetic, signedness, byte order, widening and
//! comparison. They carry no behaviour of their own: the core passes them
//! through as opaque classification data.

use vstd::prelude::*;

verus! {

/// The signedness of a value or of an operation.
#[derive(Clone, Copy, PartialEq, Eq, Structural, Hash, Debug)]
pub enum Sign {
    /// Unsigned interpretation.
    Unsigned,
    /// Signed, two's-complement interpretation.
    Signed,
}

/// An arithmetic, logical or bitwise operation.
#[derive(Clone, Copy, PartialEq, Eq, Structural, Hash, Debug)]
pub enum Arith {
    /// Addition.
    Add,
    /// Subtraction.
    Sub,
    /// Multiplication; its result is one bitness step wider.
    Mul,
    /// Division, with the given signedness.
    Div(Sign),
    /// Remainder, with the given signedness.
    Rem(Sign),
    /// Bitwise and.
    And,
    /// Bitwise or.
    Or,
    /// Bitwise exclusive or.
    Xor,
    /// Shift left.
    Shl,
    /// Shift right; the signedness selects logical or arithmetic.
    Shr(Sign),
    /// Rotate left, with the given signedness.
    Rotl(Sign),
    /// Rotate right, with the given signedness.
    Rotr(Sign),
}

/// Byte order of a multi-byte value.
#[derive(Clone, Copy, PartialEq, Eq, Structural, Hash, Debug)]
pub enum Endian {
    /// Least significant byte first.
    Little,
    /// Most significant byte first.
    Big,
}

/// How a value widens to a larger bit width.
#[derive(Clone, Copy, PartialEq, Eq, Structural, Hash, Debug)]
pub enum Ext {
    /// Replicate the sign bit.
    Sign,
    /// Fill with zeros.
    Zero,
}

/// A comparison between two values; ordered comparisons carry a signedness.
#[derive(Clone, Copy, PartialEq, Eq, Structural, Hash, Debug)]
pub enum Cmp {
    /// Less than or equal.
    Le(Sign),
    /// Less than.
    Lt(Sign),
    /// Equal.
    Eq,
    /// Greater than.
    Gt(Sign),
    /// Greater than or equal.
    Ge(Sign),
    /// Not equal.
    Ne,
}

} // verus!
