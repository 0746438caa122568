//! Lossless conversions between the integer types that the widgets mix.
use vstd::prelude::*;

verus! {

/// Converts `n` to `u16`; it must fit.
pub fn cast_u16(n: usize) -> (r: u16)
    requires
        n <= u16::MAX,
    ensures
        r == n,
{
    n as u16
}

/// Converts `n` to `u32`; it must fit.
pub fn cast_u32(n: usize) -> (r: u32)
    requires
        n <= u32::MAX,
    ensures
        r == n,
{
    n as u32
}

/// Converts `n` to `usize`, which always holds a `u32`.
pub fn cast_usize(n: u32) -> (r: usize)
    ensures
        r == n,
{
    n as usize
}

} // verus!
