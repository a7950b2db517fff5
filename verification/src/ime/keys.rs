use vstd::prelude::*;
use std::collections::HashSet;

verus! {

broadcast use vstd::std_specs::hash::group_hash_axioms;

/// Whether the key is a Shift key.
pub open spec fn spec_is_shift(key: usize) -> bool {
    key == 0x10 || key == 0xA0 || key == 0xA1
}

/// Whether the key is a Ctrl, Alt or Windows key.
pub open spec fn spec_is_caw(key: usize) -> bool {
    key == 0x11 || key == 0xA2 || key == 0xA3 || key == 0x12 || key == 0xA4 || key == 0x5B || key == 0x5C
}

/// Whether the key is a Shift key.
pub fn is_shift(key: usize) -> (r: bool)
    ensures
        r == spec_is_shift(key),
{
    key == 0x10 || key == 0xA0 || key == 0xA1
}

/// Whether the key is a Ctrl, Alt or Windows key.
pub fn is_caw(key: usize) -> (r: bool)
    ensures
        r == spec_is_caw(key),
{
    key == 0x11 || key == 0xA2 || key == 0xA3 || key == 0x12 || key == 0xA4 || key == 0xA4 || key == 0x5B
        || key == 0x5C
}

/// Inputs that are easier to handle than key codes.
#[derive(Clone, Copy, PartialEq, Eq, Structural, Debug)]
pub enum Input {
    Letter(char),
    Number(char),
    Punct(char),
    Space,
    Backspace,
    Enter,
    Left,
    Up,
    Right,
    Down,
    Unknown,
}

/// The punctuator of a key of a US keyboard, with or without Shift.
pub open spec fn punct_of(key: usize, shift: bool) -> Option<char> {
    if shift && key == 0x31 {
        Some('!')
    } else if shift && key == 0x32 {
        Some('@')
    } else if shift && key == 0x33 {
        Some('#')
    } else if shift && key == 0x34 {
        Some('$')
    } else if shift && key == 0x35 {
        Some('%')
    } else if shift && key == 0x36 {
        Some('^')
    } else if shift && key == 0x37 {
        Some('&')
    } else if shift && key == 0x38 {
        Some('*')
    } else if shift && key == 0x39 {
        Some('(')
    } else if shift && key == 0x30 {
        Some(')')
    } else if key == 0xBA {
        Some(if shift { ':' } else { ';' })
    } else if key == 0xBB {
        Some(if shift { '+' } else { '=' })
    } else if key == 0xBC {
        Some(if shift { '<' } else { ',' })
    } else if key == 0xBD {
        Some(if shift { '_' } else { '-' })
    } else if key == 0xBE {
        Some(if shift { '>' } else { '.' })
    } else if key == 0xBF {
        Some(if shift { '?' } else { '/' })
    } else if key == 0xC0 {
        Some(if shift { '~' } else { '`' })
    } else if key == 0xDB {
        Some(if shift { '{' } else { '[' })
    } else if key == 0xDC {
        Some(if shift { '|' } else { '\\' })
    } else if key == 0xDD {
        Some(if shift { '}' } else { ']' })
    } else if key == 0xDE {
        Some(if shift { '"' } else { '\'' })
    } else {
        None
    }
}

/// The input of a key code of a US keyboard, with or without Shift:
/// letters (upper case with Shift), digits (without Shift), punctuators and
/// the editing keys.
pub open spec fn input_from(key: usize, shift: bool) -> Input {
    if 0x41 <= key <= 0x5A {
        Input::Letter(((if shift { 0x41int } else { 0x61int }) + (key - 0x41)) as char)
    } else if 0x30 <= key <= 0x39 && !shift {
        Input::Number((0x30int + (key - 0x30)) as char)
    } else if punct_of(key, shift) is Some {
        Input::Punct(punct_of(key, shift).unwrap())
    } else if key == 0x20 {
        Input::Space
    } else if key == 0x0D {
        Input::Enter
    } else if key == 0x08 {
        Input::Backspace
    } else if key == 0x25 {
        Input::Left
    } else if key == 0x26 {
        Input::Up
    } else if key == 0x27 {
        Input::Right
    } else if key == 0x28 {
        Input::Down
    } else {
        Input::Unknown
    }
}

fn punct(key: usize, shift: bool) -> (r: Option<char>)
    ensures
        r == punct_of(key, shift),
{
    if shift && key == 0x31 {
        Some('!')
    } else if shift && key == 0x32 {
        Some('@')
    } else if shift && key == 0x33 {
        Some('#')
    } else if shift && key == 0x34 {
        Some('$')
    } else if shift && key == 0x35 {
        Some('%')
    } else if shift && key == 0x36 {
        Some('^')
    } else if shift && key == 0x37 {
        Some('&')
    } else if shift && key == 0x38 {
        Some('*')
    } else if shift && key == 0x39 {
        Some('(')
    } else if shift && key == 0x30 {
        Some(')')
    } else if key == 0xBA {
        Some(if shift { ':' } else { ';' })
    } else if key == 0xBB {
        Some(if shift { '+' } else { '=' })
    } else if key == 0xBC {
        Some(if shift { '<' } else { ',' })
    } else if key == 0xBD {
        Some(if shift { '_' } else { '-' })
    } else if key == 0xBE {
        Some(if shift { '>' } else { '.' })
    } else if key == 0xBF {
        Some(if shift { '?' } else { '/' })
    } else if key == 0xC0 {
        Some(if shift { '~' } else { '`' })
    } else if key == 0xDB {
        Some(if shift { '{' } else { '[' })
    } else if key == 0xDC {
        Some(if shift { '|' } else { '\\' })
    } else if key == 0xDD {
        Some(if shift { '}' } else { ']' })
    } else if key == 0xDE {
        Some(if shift { '"' } else { '\'' })
    } else {
        None
    }
}

impl Input {
    /// The input of a key code of a US keyboard, with or without Shift.
    pub fn from(key_code: usize, shift: bool) -> (r: Input)
        ensures
            r == input_from(key_code, shift),
    {
        if 0x41 <= key_code && key_code <= 0x5A {
            let base: u8 = if shift { 0x41 } else { 0x61 };
            let offset = (key_code - 0x41) as u8;
            Input::Letter((base + offset) as char)
        } else if 0x30 <= key_code && key_code <= 0x39 && !shift {
            let offset = (key_code - 0x30) as u8;
            Input::Number((0x30u8 + offset) as char)
        } else {
            match punct(key_code, shift) {
                Some(p) => Input::Punct(p),
                None => {
                    if key_code == 0x20 {
                        Input::Space
                    } else if key_code == 0x0D {
                        Input::Enter
                    } else if key_code == 0x08 {
                        Input::Backspace
                    } else if key_code == 0x25 {
                        Input::Left
                    } else if key_code == 0x26 {
                        Input::Up
                    } else if key_code == 0x27 {
                        Input::Right
                    } else if key_code == 0x28 {
                        Input::Down
                    } else {
                        Input::Unknown
                    }
                },
            }
        }
    }
}

/// Whether an input will be eaten: when not composing, letters and
/// punctuators are.
pub open spec fn test_input_spec(composing: bool, input: Input) -> bool {
    if !composing {
        input is Letter || input is Punct
    } else {
        true
    }
}

/// Whether an input will be eaten if it comes.
pub fn test_input(composing: bool, input: Input) -> (r: bool)
    ensures
        r == test_input_spec(composing, input),
{
    if !composing {
        match input {
            Input::Letter(_) | Input::Punct(_) => true,
            _ => false,
        }
    } else {
        true
    }
}

/// The modifier keys held down: the Ctrl, Alt and Windows keys, and Shift.
pub struct KeySink {
    caws: HashSet<usize>,
    shift: bool,
}

/// The mathematical value of a [`KeySink`].
pub struct KeySinkModel {
    pub caws: Set<usize>,
    pub shift: bool,
}

/// What a key down asks for.
#[derive(Clone, Copy, PartialEq, Eq, Structural, Debug)]
pub enum KeyDown {
    /// The key is not eaten.
    Pass,
    /// The key is eaten (`true`) or not, with nothing to handle.
    Eat(bool),
    /// The input is to be handled.
    Handle(Input),
}

impl View for KeySink {
    type V = KeySinkModel;

    closed spec fn view(&self) -> KeySinkModel {
        KeySinkModel { caws: self.caws@, shift: self.shift }
    }
}

/// A key down is tested: the state after it and whether it will be eaten.
pub open spec fn test_key_down_spec(s: KeySinkModel, key: usize, composing: bool) -> (KeySinkModel, bool) {
    if spec_is_caw(key) {
        (KeySinkModel { caws: s.caws.insert(key), ..s }, false)
    } else if !s.caws.is_empty() {
        (s, false)
    } else if spec_is_shift(key) {
        (s, true)
    } else {
        (s, test_input_spec(composing, input_from(key, s.shift)))
    }
}

/// A key goes down: the state after it and what is asked for.
pub open spec fn key_down_spec(s: KeySinkModel, key: usize) -> (KeySinkModel, KeyDown) {
    if spec_is_caw(key) {
        (KeySinkModel { caws: s.caws.insert(key), ..s }, KeyDown::Pass)
    } else if !s.caws.is_empty() {
        (s, KeyDown::Pass)
    } else if spec_is_shift(key) {
        (KeySinkModel { shift: true, ..s }, KeyDown::Pass)
    } else {
        (s, KeyDown::Handle(input_from(key, s.shift)))
    }
}

/// A key up is tested: the state after it and whether it will be eaten.
pub open spec fn test_key_up_spec(s: KeySinkModel, key: usize) -> (KeySinkModel, bool) {
    let s2 = if spec_is_caw(key) { KeySinkModel { caws: s.caws.remove(key), ..s } } else { s };
    (s2, spec_is_shift(key))
}

/// A key goes up: the state after it. It is never eaten.
pub open spec fn key_up_spec(s: KeySinkModel, key: usize) -> KeySinkModel {
    let s2 = if spec_is_caw(key) { KeySinkModel { caws: s.caws.remove(key), ..s } } else { s };
    if spec_is_shift(key) {
        KeySinkModel { shift: false, ..s2 }
    } else {
        s2
    }
}

impl KeySink {
    /// No modifier held down.
    pub fn new() -> (r: KeySink)
        ensures
            r@ == (KeySinkModel { caws: Set::empty(), shift: false }),
    {
        KeySink { caws: HashSet::new(), shift: false }
    }

    /// Tests a key down: whether it will be eaten. Ctrl, Alt and Windows
    /// keys are remembered and never eaten, nor is any key while one of
    /// them is held; Shift is.
    pub fn on_test_key_down(&mut self, key: usize, composing: bool) -> (r: bool)
        ensures
            (final(self)@, r) == test_key_down_spec(old(self)@, key, composing),
    {
        if is_caw(key) {
            self.caws.insert(key);
            return false;
        }
        if !self.caws.is_empty() {
            return false;
        }
        if is_shift(key) {
            return true;
        }
        test_input(composing, Input::from(key, self.shift))
    }

    /// A key goes down. Ctrl, Alt and Windows keys are remembered, Shift
    /// is remembered as held; any other key is to be handled, unless a
    /// Ctrl, Alt or Windows key is held.
    pub fn on_key_down(&mut self, key: usize) -> (r: KeyDown)
        ensures
            (final(self)@, r) == key_down_spec(old(self)@, key),
    {
        if is_caw(key) {
            self.caws.insert(key);
            return KeyDown::Pass;
        }
        if !self.caws.is_empty() {
            return KeyDown::Pass;
        }
        if is_shift(key) {
            self.shift = true;
            return KeyDown::Pass;
        }
        KeyDown::Handle(Input::from(key, self.shift))
    }

    /// Tests a key up: a Ctrl, Alt or Windows key is forgotten; only Shift
    /// is eaten.
    pub fn on_test_key_up(&mut self, key: usize) -> (r: bool)
        ensures
            (final(self)@, r) == test_key_up_spec(old(self)@, key),
    {
        if is_caw(key) {
            self.caws.remove(&key);
        }
        is_shift(key)
    }

    /// A key goes up: a Ctrl, Alt or Windows key is forgotten, Shift is no
    /// longer held. It is never eaten.
    pub fn on_key_up(&mut self, key: usize) -> (r: bool)
        ensures
            final(self)@ == key_up_spec(old(self)@, key),
            !r,
    {
        if is_caw(key) {
            self.caws.remove(&key);
        }
        if is_shift(key) {
            self.shift = false;
        }
        false
    }
}

} // verus!
