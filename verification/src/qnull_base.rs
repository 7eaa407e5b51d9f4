//! Raw null sentinels of the q integer types.
//!
//! Each numeric q type reserves its minimum value as the null sentinel; the
//! floating types use NaN, carried in this crate as IEEE-754 bit patterns.

#![allow(non_upper_case_globals)]

use vstd::prelude::*;

verus! {

/// Null of short (`0Nh`).
pub const H: i16 = i16::MIN;
/// Null of int, month, date, minute, second and time (`0Ni`).
pub const I: i32 = i32::MIN;
/// Null of long, timestamp and timespan (`0N`).
pub const J: i64 = i64::MIN;
/// Bit pattern of the real null `0Ne` (a quiet NaN).
pub const E_BITS: u32 = 0x7fc00000;
/// Bit pattern of the float and datetime null `0n` (a quiet NaN).
pub const F_BITS: u64 = 0x7ff8000000000000;

} // verus!
