//! Bit-exact data primitives for an assembly-rewriting toolchain: a codec for
//! packing values into arbitrary sub-fields of instruction words and byte
//! buffers, a code buffer that carries four per-byte permission bitstreams in
//! lockstep with the bytes, and a 512-bit constant store readable at any
//! power-of-two width, together with the flat tag types those components
//! exchange with their callers.

pub mod bitmath;
pub mod bitstream;
pub mod code;
pub mod mem;
pub mod ops;
pub mod perms;
pub mod reg;
pub mod spans;
pub mod value;

pub use reg::Reg;
