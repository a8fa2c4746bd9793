//! Linux codes of pointer buttons.

use vstd::prelude::*;

verus! {

pub const LEFT: u32 = 0x110;

pub const RIGHT: u32 = 0x111;

pub const MIDDLE: u32 = 0x112;

/// The codes of pointer buttons.
pub open spec fn button_code(code: int) -> bool {
    0x110 <= code <= 0x117
}

/// Whether a key code is that of a pointer button.
pub fn is_button(code: u16) -> (r: bool)
    ensures
        r == button_code(code as int),
{
    0x110 <= code && code <= 0x117
}

} // verus!
