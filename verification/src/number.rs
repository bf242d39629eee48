//! Floating-point numbers, carried by their bits.
use vstd::prelude::*;

verus! {

/// A double-precision number.
#[derive(Debug, Clone, Copy, PartialEq, Eq, Structural)]
pub struct Double {
    pub bits: u64,
}

/// The bits of the number one in double precision.
pub const DOUBLE_ONE: u64 = 0x3ff0_0000_0000_0000;

/// A single-precision number.
#[derive(Debug, Clone, Copy, PartialEq, Eq, Structural)]
pub struct Single {
    pub bits: u32,
}

/// The bits of the number one in half precision.
pub const HALF_ONE: u16 = 0x3c00;

}
