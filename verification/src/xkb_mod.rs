//! XKB modifier bits of the standard keymap.

use vstd::prelude::*;

verus! {

pub const SHIFT: u32 = 1;

pub const CONTROL: u32 = 4;

pub const ALT: u32 = 8;

pub const SUPER: u32 = 64;

} // verus!
