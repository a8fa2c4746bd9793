//! Linux evdev key codes of named keys.

use vstd::prelude::*;

verus! {

pub const ESC: u32 = 1;

pub const BACKSPACE: u32 = 14;

pub const TAB: u32 = 15;

pub const ENTER: u32 = 28;

pub const LEFT_CTRL: u32 = 29;

pub const LEFT_SHIFT: u32 = 42;

pub const LEFT_ALT: u32 = 56;

pub const RIGHT_CTRL: u32 = 97;

pub const RIGHT_ALT: u32 = 100;

pub const HOME: u32 = 102;

pub const UP: u32 = 103;

pub const PAGE_UP: u32 = 104;

pub const LEFT: u32 = 105;

pub const RIGHT: u32 = 106;

pub const END: u32 = 107;

pub const DOWN: u32 = 108;

pub const PAGE_DOWN: u32 = 109;

pub const INSERT: u32 = 110;

pub const DELETE: u32 = 111;

pub const LEFT_META: u32 = 125;

/// The code of F1 to F12.
pub open spec fn f_code(n: int) -> Option<u32> {
    if 1 <= n <= 10 {
        Some((58 + n) as u32)
    } else if n == 11 {
        Some(87)
    } else if n == 12 {
        Some(88)
    } else {
        None
    }
}

pub fn f_key(n: u8) -> (r: Option<u32>)
    ensures
        r == f_code(n as int),
{
    if 1 <= n && n <= 10 {
        Some(58 + n as u32)
    } else if n == 11 {
        Some(87)
    } else if n == 12 {
        Some(88)
    } else {
        None
    }
}

/// The virtual terminal that a function key switches to.
pub open spec fn f_number(code: int) -> Option<i32> {
    if 59 <= code <= 68 {
        Some((code - 58) as i32)
    } else if code == 87 {
        Some(11)
    } else if code == 88 {
        Some(12)
    } else {
        None
    }
}

/// Map the codes of F1 to F12 to their virtual terminal number.
pub fn vt_for_fkey(code: u16) -> (r: Option<i32>)
    ensures
        r == f_number(code as int),
{
    if 59 <= code && code <= 68 {
        Some((code - 58) as i32)
    } else if code == 87 {
        Some(11)
    } else if code == 88 {
        Some(12)
    } else {
        None
    }
}

/// Every function key switches to the terminal of its own number, and no
/// other key switches.
pub proof fn law_function_keys_and_terminals(n: int, code: int)
    ensures
        f_code(n) is Some ==> f_number(f_code(n)->0 as int) == Some(n as i32),
        f_number(code) is Some ==> f_code(f_number(code)->0 as int) == Some(code as u32),
{
}

} // verus!
