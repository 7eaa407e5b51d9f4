//! Attribute codes that a q list or table can carry.

use vstd::prelude::*;

verus! {

pub const NONE: i8 = 0;
pub const SORTED: i8 = 1;
pub const UNIQUE: i8 = 2;
pub const PARTED: i8 = 3;
pub const GROUPED: i8 = 4;

} // verus!
