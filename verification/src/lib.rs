//! A fixed-width 256-bit unsigned integer kernel: the packed four-limb value,
//! its register twin, byte-level memory access, bitwise operators, shifts,
//! sign extension and wrapping arithmetic, each with a proved contract over
//! the mathematical value of its operands.
//!
//! Every operation is written for the portable backend: plain 64-bit and
//! 128-bit integer arithmetic, with no vector instruction and no raw memory
//! access.

pub mod arith;
pub mod bitwise;
pub mod bytes;
pub mod decimal;
pub mod extend;
pub mod limbs;
pub mod memory;
pub mod mul;
pub mod shift;
pub mod value;
pub mod word;
