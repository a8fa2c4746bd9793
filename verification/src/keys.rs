//! Keyboard and mouse events of a terminal, and the evdev key codes they
//! stand for.

use vstd::prelude::*;
use crate::keycodes;
use crate::keycodes::f_key;
use crate::keycodes::f_code;
use crate::text::to_lower;
use crate::text::lower;
use crate::xkb_mod;
use crate::btn;

verus! {

/// A key as a terminal reports it.
#[derive(Clone, Copy, Debug, PartialEq, Eq, Structural)]
pub enum KeyCode {
    Char(char),
    Backspace,
    Tab,
    Enter,
    Esc,
    Delete,
    Insert,
    Home,
    End,
    PageUp,
    PageDown,
    Left,
    Right,
    Up,
    Down,
    F(u8),
    Other,
}

/// The modifiers held with a key.
#[derive(Clone, Copy, Debug, PartialEq, Eq, Structural)]
pub struct KeyMods {
    pub shift: bool,
    pub ctrl: bool,
    pub alt: bool,
    pub logo: bool,
}

#[derive(Clone, Copy, Debug, PartialEq, Eq, Structural)]
pub enum KeyKind {
    Press,
    Repeat,
    Release,
}

#[derive(Clone, Copy, Debug, PartialEq, Eq, Structural)]
pub struct KeyEvent {
    pub code: KeyCode,
    pub mods: KeyMods,
    pub kind: KeyKind,
}

#[derive(Clone, Copy, Debug, PartialEq, Eq, Structural)]
pub enum MouseButton {
    Left,
    Right,
    Middle,
}

#[derive(Clone, Copy, Debug, PartialEq, Eq, Structural)]
pub enum MouseKind {
    Down(MouseButton),
    Up(MouseButton),
    Drag(MouseButton),
    Moved,
    ScrollUp,
    ScrollDown,
    Other,
}

/// A mouse event at a terminal cell.
#[derive(Clone, Copy, Debug, PartialEq, Eq, Structural)]
pub struct MouseEvent {
    pub kind: MouseKind,
    pub column: u16,
    pub row: u16,
}

/// The Linux code of a mouse button.
pub open spec fn button_of(b: MouseButton) -> u32 {
    match b {
        MouseButton::Left => btn::LEFT,
        MouseButton::Right => btn::RIGHT,
        MouseButton::Middle => btn::MIDDLE,
    }
}

pub fn mouse_btn(b: MouseButton) -> (r: u32)
    ensures
        r == button_of(b),
{
    match b {
        MouseButton::Left => btn::LEFT,
        MouseButton::Right => btn::RIGHT,
        MouseButton::Middle => btn::MIDDLE,
    }
}

/// The evdev code of an unshifted character.
pub open spec fn evdev_code(ch: char) -> Option<u32> {
    match ch {
        'a' => Some(30), 'b' => Some(48), 'c' => Some(46), 'd' => Some(32), 'e' => Some(18),
        'f' => Some(33), 'g' => Some(34), 'h' => Some(35), 'i' => Some(23), 'j' => Some(36),
        'k' => Some(37), 'l' => Some(38), 'm' => Some(50), 'n' => Some(49), 'o' => Some(24),
        'p' => Some(25), 'q' => Some(16), 'r' => Some(19), 's' => Some(31), 't' => Some(20),
        'u' => Some(22), 'v' => Some(47), 'w' => Some(17), 'x' => Some(45), 'y' => Some(21),
        'z' => Some(44),
        '1' => Some(2), '2' => Some(3), '3' => Some(4), '4' => Some(5), '5' => Some(6),
        '6' => Some(7), '7' => Some(8), '8' => Some(9), '9' => Some(10), '0' => Some(11),
        '-' => Some(12), '=' => Some(13), '[' => Some(26), ']' => Some(27), '\\' => Some(43),
        ';' => Some(39), '\'' => Some(40), '`' => Some(41), ',' => Some(51), '.' => Some(52),
        '/' => Some(53), ' ' => Some(57),
        _ => None,
    }
}

/// Map an ASCII char (lowercase) or special char to a Linux evdev keycode.
/// Returns None for unmappable characters.
pub fn evdev_keycode(ch: char) -> (r: Option<u32>)
    ensures
        r == evdev_code(ch),
{
    match ch {
        'a' => Some(30), 'b' => Some(48), 'c' => Some(46), 'd' => Some(32), 'e' => Some(18),
        'f' => Some(33), 'g' => Some(34), 'h' => Some(35), 'i' => Some(23), 'j' => Some(36),
        'k' => Some(37), 'l' => Some(38), 'm' => Some(50), 'n' => Some(49), 'o' => Some(24),
        'p' => Some(25), 'q' => Some(16), 'r' => Some(19), 's' => Some(31), 't' => Some(20),
        'u' => Some(22), 'v' => Some(47), 'w' => Some(17), 'x' => Some(45), 'y' => Some(21),
        'z' => Some(44),
        '1' => Some(2), '2' => Some(3), '3' => Some(4), '4' => Some(5), '5' => Some(6),
        '6' => Some(7), '7' => Some(8), '8' => Some(9), '9' => Some(10), '0' => Some(11),
        '-' => Some(12), '=' => Some(13), '[' => Some(26), ']' => Some(27), '\\' => Some(43),
        ';' => Some(39), '\'' => Some(40), '`' => Some(41), ',' => Some(51), '.' => Some(52),
        '/' => Some(53), ' ' => Some(57),
        _ => None,
    }
}

/// The character on the same key without Shift, for the shifted symbols of a
/// US keyboard; every other character as it is.
pub open spec fn unshifted(c: char) -> char {
    match c {
        '!' => '1', '@' => '2', '#' => '3', '$' => '4', '%' => '5',
        '^' => '6', '&' => '7', '*' => '8', '(' => '9', ')' => '0',
        '_' => '-', '+' => '=', '{' => '[', '}' => ']', '|' => '\\',
        ':' => ';', '"' => '\'', '~' => '`', '<' => ',', '>' => '.',
        '?' => '/',
        _ => c,
    }
}

fn without_shift(c: char) -> (r: char)
    ensures
        r == unshifted(c),
{
    match c {
        '!' => '1', '@' => '2', '#' => '3', '$' => '4', '%' => '5',
        '^' => '6', '&' => '7', '*' => '8', '(' => '9', ')' => '0',
        '_' => '-', '+' => '=', '{' => '[', '}' => ']', '|' => '\\',
        ':' => ';', '"' => '\'', '~' => '`', '<' => ',', '>' => '.',
        '?' => '/',
        _ => c,
    }
}

/// Typing the key takes Shift: an upper-case letter or a shifted symbol.
pub open spec fn shifted(code: KeyCode) -> bool {
    match code {
        KeyCode::Char(c) => lower(c) != c || unshifted(c) != c,
        _ => false,
    }
}

pub fn needs_shift(code: KeyCode) -> (r: bool)
    ensures
        r == shifted(code),
{
    match code {
        KeyCode::Char(c) => to_lower(c) != c || without_shift(c) != c,
        _ => false,
    }
}

/// The evdev code of a key; the code of a character is that of the key it
/// stands on.
pub open spec fn code_of(code: KeyCode) -> Option<u32> {
    match code {
        KeyCode::Char(c) => evdev_code(unshifted(lower(c))),
        KeyCode::Backspace => Some(keycodes::BACKSPACE),
        KeyCode::Tab => Some(keycodes::TAB),
        KeyCode::Enter => Some(keycodes::ENTER),
        KeyCode::Esc => Some(keycodes::ESC),
        KeyCode::Delete => Some(keycodes::DELETE),
        KeyCode::Insert => Some(keycodes::INSERT),
        KeyCode::Home => Some(keycodes::HOME),
        KeyCode::End => Some(keycodes::END),
        KeyCode::PageUp => Some(keycodes::PAGE_UP),
        KeyCode::PageDown => Some(keycodes::PAGE_DOWN),
        KeyCode::Left => Some(keycodes::LEFT),
        KeyCode::Right => Some(keycodes::RIGHT),
        KeyCode::Up => Some(keycodes::UP),
        KeyCode::Down => Some(keycodes::DOWN),
        KeyCode::F(n) => f_code(n as int),
        KeyCode::Other => None,
    }
}

pub fn keycode_for(code: KeyCode) -> (r: Option<u32>)
    ensures
        r == code_of(code),
{
    match code {
        KeyCode::Char(c) => evdev_keycode(without_shift(to_lower(c))),
        KeyCode::Backspace => Some(keycodes::BACKSPACE),
        KeyCode::Tab => Some(keycodes::TAB),
        KeyCode::Enter => Some(keycodes::ENTER),
        KeyCode::Esc => Some(keycodes::ESC),
        KeyCode::Delete => Some(keycodes::DELETE),
        KeyCode::Insert => Some(keycodes::INSERT),
        KeyCode::Home => Some(keycodes::HOME),
        KeyCode::End => Some(keycodes::END),
        KeyCode::PageUp => Some(keycodes::PAGE_UP),
        KeyCode::PageDown => Some(keycodes::PAGE_DOWN),
        KeyCode::Left => Some(keycodes::LEFT),
        KeyCode::Right => Some(keycodes::RIGHT),
        KeyCode::Up => Some(keycodes::UP),
        KeyCode::Down => Some(keycodes::DOWN),
        KeyCode::F(n) => f_key(n),
        KeyCode::Other => None,
    }
}

/// Shift does not change which key a letter stands on.
pub proof fn law_letter_case_shares_a_key(c: char)
    ensures
        code_of(KeyCode::Char(c)) == code_of(KeyCode::Char(lower(c))),
{
    assert(lower(lower(c)) == lower(c));
}

/// The XKB bits of the held modifiers.
pub open spec fn mod_bits(m: KeyMods) -> u32 {
    ((if m.shift { 1int } else { 0 }) + (if m.ctrl { 4int } else { 0 }) + (if m.alt { 8int } else {
        0
    }) + (if m.logo { 64int } else { 0 })) as u32
}

/// XKB modifier bitmask of the held modifiers.
pub fn xkb_mods(m: KeyMods) -> (r: u32)
    ensures
        r == mod_bits(m),
{
    let shift: u32 = if m.shift { xkb_mod::SHIFT } else { 0 };
    let ctrl: u32 = if m.ctrl { xkb_mod::CONTROL } else { 0 };
    let alt: u32 = if m.alt { xkb_mod::ALT } else { 0 };
    let logo: u32 = if m.logo { xkb_mod::SUPER } else { 0 };
    shift + ctrl + alt + logo
}

/// The code and modifier bits of a key event; `None` for a key without code.
pub open spec fn input_of(ev: KeyEvent) -> Option<(u32, u32)> {
    match code_of(ev.code) {
        Some(k) => Some(
            (k, mod_bits(KeyMods { shift: ev.mods.shift || shifted(ev.code), ..ev.mods })),
        ),
        None => None,
    }
}

/// Convert a key event to (keycode, modifier bits). Returns None if
/// unmappable.
pub fn key_to_input(ev: &KeyEvent) -> (r: Option<(u32, u32)>)
    ensures
        r == input_of(*ev),
{
    match keycode_for(ev.code) {
        Some(k) => {
            let mods: KeyMods = KeyMods {
                shift: ev.mods.shift || needs_shift(ev.code),
                ctrl: ev.mods.ctrl,
                alt: ev.mods.alt,
                logo: ev.mods.logo,
            };
            Some((k, xkb_mods(mods)))
        },
        None => None,
    }
}

/// No two characters stand on one key.
pub proof fn law_one_key_for_each_character(a: char, b: char)
    requires
        evdev_code(a) is Some,
        evdev_code(a) == evdev_code(b),
    ensures
        a == b,
{
}

/// A character that needs Shift stands on the key of one that does not, and no
/// two of them on the same.
pub proof fn law_shifted_characters_stand_above_others(a: char, b: char)
    ensures
        unshifted(a) != a ==> evdev_code(a) is None && evdev_code(unshifted(a)) is Some
            && unshifted(unshifted(a)) == unshifted(a) && code_of(KeyCode::Char(a)) == code_of(
            KeyCode::Char(unshifted(a)),
        ),
        unshifted(a) != a ==> shifted(KeyCode::Char(a)) && !shifted(KeyCode::Char(unshifted(a))),
        unshifted(a) != a && unshifted(b) != b && unshifted(a) == unshifted(b) ==> a == b,
{
}

/// Each held modifier adds its own bit, and none is 0.
pub proof fn law_modifiers_add_their_bits(m: KeyMods)
    ensures
        mod_bits(KeyMods { shift: true, ..m }) == mod_bits(KeyMods { shift: false, ..m }) + 1,
        mod_bits(KeyMods { ctrl: true, ..m }) == mod_bits(KeyMods { ctrl: false, ..m }) + 4,
        mod_bits(KeyMods { alt: true, ..m }) == mod_bits(KeyMods { alt: false, ..m }) + 8,
        mod_bits(KeyMods { logo: true, ..m }) == mod_bits(KeyMods { logo: false, ..m }) + 64,
        mod_bits(KeyMods { shift: false, ctrl: false, alt: false, logo: false }) == 0,
{
}

/// A capital letter is its small letter with Shift held, whether or not Shift
/// is reported; a small letter is sent as it comes.
pub proof fn law_capitals_are_typed_with_shift(c: char, m: KeyMods, kind: KeyKind)
    requires
        0x61 <= c as u32 <= 0x7a,
    ensures
        input_of(KeyEvent { code: KeyCode::Char((c as u32 - 0x20) as char), mods: m, kind })
            == input_of(
            KeyEvent { code: KeyCode::Char(c), mods: KeyMods { shift: true, ..m }, kind },
        ),
        input_of(KeyEvent { code: KeyCode::Char(c), mods: m, kind }) == Some(
            (evdev_code(c)->0, mod_bits(m)),
        ),
{
    let big = (c as u32 - 0x20) as char;
    assert(lower(big) == c);
    assert(lower(c) == c);
    assert(unshifted(c) == c);
}

/// Each button has a code of its own, one of those of pointer buttons.
pub proof fn law_buttons_differ(a: MouseButton, b: MouseButton)
    ensures
        button_of(a) == button_of(b) <==> a == b,
        btn::button_code(button_of(a) as int),
{
}

/// The four rows of keys are numbered from left to right.
pub proof fn law_rows_of_keys_count_up(i: int)
    ensures
        0 <= i < 12 ==> evdev_code("1234567890-="@[i]) == Some((2 + i) as u32),
        0 <= i < 12 ==> evdev_code("qwertyuiop[]"@[i]) == Some((16 + i) as u32),
        0 <= i < 12 ==> evdev_code("asdfghjkl;'`"@[i]) == Some((30 + i) as u32),
        0 <= i < 11 ==> evdev_code("\\zxcvbnm,./"@[i]) == Some((43 + i) as u32),
        evdev_code(' ') == Some(57u32),
{
    reveal_strlit("1234567890-=");
    reveal_strlit("qwertyuiop[]");
    reveal_strlit("asdfghjkl;'`");
    reveal_strlit("\\zxcvbnm,./");
}

/// With Shift the keys of the top row and of punctuation write the signs above
/// them, each its own.
pub proof fn law_signs_stand_above_their_keys(i: int)
    ensures
        0 <= i < 12 ==> unshifted("!@#$%^&*()_+"@[i]) == "1234567890-="@[i],
        0 <= i < 9 ==> unshifted("{}|:\"~<>?"@[i]) == "[]\\;'`,./"@[i],
        0 <= i < 12 ==> code_of(KeyCode::Char("!@#$%^&*()_+"@[i])) == Some((2 + i) as u32),
{
    reveal_strlit("!@#$%^&*()_+");
    reveal_strlit("1234567890-=");
    reveal_strlit("{}|:\"~<>?");
    reveal_strlit("[]\\;'`,./");
}

} // verus!
