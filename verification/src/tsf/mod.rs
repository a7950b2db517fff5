pub mod composition;

use vstd::prelude::*;
use crate::extend::CharExt;

verus! {

/// Inputs that are easier to understand and handle than key events.
#[derive(Clone, Copy, PartialEq, Eq, Structural, Debug)]
pub enum Input {
    Letter(char),
    Number(usize),
    Punct(char),
    Space,
    Backspace,
    Enter,
    Tab,
    Left,
    Up,
    Right,
    Down,
    Unknown(u32),
}

/// Keys that do not type a character.
pub open spec fn special_key(keycode: u32) -> Option<Input> {
    if keycode == 0x08 {
        Some(Input::Backspace)
    } else if keycode == 0x09 {
        Some(Input::Tab)
    } else if keycode == 0x0D {
        Some(Input::Enter)
    } else if keycode == 0x20 {
        Some(Input::Space)
    } else if keycode == 0x25 {
        Some(Input::Left)
    } else if keycode == 0x26 {
        Some(Input::Up)
    } else if keycode == 0x27 {
        Some(Input::Right)
    } else if keycode == 0x28 {
        Some(Input::Down)
    } else {
        None
    }
}

/// The input of a typed character: a digit, an ASCII letter, or else a
/// punctuator.
pub open spec fn char_input(ch: char) -> Input {
    if '0' <= ch <= '9' {
        Input::Number((ch as u32 - '0' as u32) as usize)
    } else if ('a' <= ch <= 'z') || ('A' <= ch <= 'Z') {
        Input::Letter(ch)
    } else {
        Input::Punct(ch)
    }
}

/// The input of a key: a special key, else the character that the key
/// types under the keyboard layout (`unit`, `None` when it types nothing).
/// A key that types a lone surrogate is unknown.
pub open spec fn input_of(keycode: u32, unit: Option<u16>) -> Input {
    match special_key(keycode) {
        Some(i) => i,
        None => match unit {
            None => Input::Unknown(keycode),
            Some(u) => if 0xD800 <= u <= 0xDFFF {
                Input::Unknown(keycode)
            } else {
                char_input(u as char)
            },
        },
    }
}

/// The input of a key that does not type a character, if it is one.
pub fn special_input(keycode: u32) -> (r: Option<Input>)
    ensures
        r == special_key(keycode),
{
    if keycode == 0x08 {
        Some(Input::Backspace)
    } else if keycode == 0x09 {
        Some(Input::Tab)
    } else if keycode == 0x0D {
        Some(Input::Enter)
    } else if keycode == 0x20 {
        Some(Input::Space)
    } else if keycode == 0x25 {
        Some(Input::Left)
    } else if keycode == 0x26 {
        Some(Input::Up)
    } else if keycode == 0x27 {
        Some(Input::Right)
    } else if keycode == 0x28 {
        Some(Input::Down)
    } else {
        None
    }
}

/// Reads a key event: `unit` is the first UTF-16 unit that the key types
/// under the keyboard layout (`None` when it types nothing); it is read only
/// for keys that are not special.
pub fn parse_input(keycode: u32, unit: Option<u16>) -> (r: Input)
    ensures
        r == input_of(keycode, unit),
{
    match special_input(keycode) {
        Some(i) => i,
        None => match unit {
            None => Input::Unknown(keycode),
            Some(u) => match char::try_from_utf16(u) {
                Err(_) => Input::Unknown(keycode),
                Ok(ch) => {
                    proof {
                        assert(ch == u as char);
                    }
                    if '0' <= ch && ch <= '9' {
                        Input::Number((ch as u32 - '0' as u32) as usize)
                    } else if ('a' <= ch && ch <= 'z') || ('A' <= ch && ch <= 'Z') {
                        Input::Letter(ch)
                    } else {
                        Input::Punct(ch)
                    }
                },
            },
        },
    }
}

/// Key combinations that the input method reacts to.
#[derive(Clone, Copy, PartialEq, Eq, Structural, Debug)]
pub enum Shortcut {
    /// Ctrl + Shift + N: switch to the next schema.
    NextSchema,
    /// Any other combination with Ctrl or Alt.
    Undefine,
}

/// The shortcut that a key makes with the modifiers held down.
pub open spec fn shortcut_of(ctrl: bool, alt: bool, shift: bool, key_code: usize) -> Option<Shortcut> {
    if ctrl && !alt && shift && key_code == 0x4E {
        Some(Shortcut::NextSchema)
    } else if ctrl || alt {
        Some(Shortcut::Undefine)
    } else {
        None
    }
}

impl Shortcut {
    /// The shortcut that `key_code` makes with the modifiers held down:
    /// `None` when neither Ctrl nor Alt is down.
    pub fn try_from(ctrl: bool, alt: bool, shift: bool, key_code: usize) -> (r: Option<Shortcut>)
        ensures
            r == shortcut_of(ctrl, alt, shift, key_code),
    {
        if ctrl && !alt && shift && key_code == 0x4E {
            Some(Shortcut::NextSchema)
        } else if ctrl || alt {
            Some(Shortcut::Undefine)
        } else {
            None
        }
    }
}

/// The arrow keys are read as arrows by their codes alone, whatever the
/// keyboard layout types for them, and no other key is read as an arrow.
pub proof fn law_arrow_keys(keycode: u32, unit: Option<u16>)
    ensures
        (input_of(keycode, unit) == Input::Left) <==> keycode == 0x25,
        (input_of(keycode, unit) == Input::Up) <==> keycode == 0x26,
        (input_of(keycode, unit) == Input::Right) <==> keycode == 0x27,
        (input_of(keycode, unit) == Input::Down) <==> keycode == 0x28,
{
}

/// A key that is no special key and types nothing, or a lone surrogate,
/// is unknown with its code.
pub proof fn law_untyped_keys(keycode: u32, u: u16)
    requires
        special_key(keycode) is None,
    ensures
        input_of(keycode, None) == Input::Unknown(keycode),
        0xD800 <= u <= 0xDFFF ==> input_of(keycode, Some(u)) == Input::Unknown(keycode),
{
}

/// A key that is no special key is read by the character it types: a digit
/// gives its value (0 to 9), an ASCII letter is a letter, any other
/// character a punctuator, and the character is kept as typed.
pub proof fn law_typed_characters(keycode: u32, u: u16)
    requires
        special_key(keycode) is None,
        !(0xD800 <= u <= 0xDFFF),
    ensures
        input_of(keycode, Some(u)) is Number <==> 0x30 <= u <= 0x39,
        input_of(keycode, Some(u)) matches Input::Number(n) ==> n + 0x30 == u && n <= 9,
        input_of(keycode, Some(u)) is Letter <==> (0x41 <= u <= 0x5A || 0x61 <= u <= 0x7A),
        input_of(keycode, Some(u)) matches Input::Letter(l) ==> l == u as char,
        input_of(keycode, Some(u)) is Punct <==> !(0x30 <= u <= 0x39 || 0x41 <= u <= 0x5A || 0x61 <= u <= 0x7A),
        input_of(keycode, Some(u)) matches Input::Punct(p) ==> p == u as char,
{
}

} // verus!
