use vstd::prelude::*;
use crate::text::{chars_of, parse_hex_u32, parse_hex_u32_exec};
use crate::layout::{BELGIAN_FRENCH, BELGIAN_FRENCH_COMMA, BELGIAN_FRENCH_PERIOD, CANADIAN_FRENCH,
    FRENCH, GERMAN, GERMAN_IBM, SWISS_FRENCH};

verus! {

/// What the installer recorded: the keyboard layout chosen and the
/// language identifier detected for it.
pub struct Install {
    pub layout: Option<Layout>,
    pub langid: Option<u16>,
}

/// Keyboard layouts the installer offers.
#[derive(Clone, Copy, PartialEq, Eq, Structural, Debug)]
pub enum Layout {
    Qwerty,
    QwertyCFR,
    Azerty,
    Qwertz,
}

/// The layout of a keyboard layout identifier.
pub open spec fn install_layout_of(lang_id: u32) -> Layout {
    if lang_id == GERMAN || lang_id == GERMAN_IBM || lang_id == SWISS_FRENCH {
        Layout::Qwertz
    } else if lang_id == FRENCH || lang_id == BELGIAN_FRENCH || lang_id == BELGIAN_FRENCH_COMMA
        || lang_id == BELGIAN_FRENCH_PERIOD {
        Layout::Azerty
    } else if lang_id == CANADIAN_FRENCH {
        Layout::QwertyCFR
    } else {
        Layout::Qwerty
    }
}

impl Layout {
    /// The layout of a keyboard layout identifier; every layout not known
    /// as QWERTZ, AZERTY or Canadian French is taken as QWERTY.
    pub fn from_lang_id(lang_id: u32) -> (r: Layout)
        ensures
            r == install_layout_of(lang_id),
    {
        if lang_id == GERMAN || lang_id == GERMAN_IBM || lang_id == SWISS_FRENCH {
            Layout::Qwertz
        } else if lang_id == FRENCH || lang_id == BELGIAN_FRENCH || lang_id == BELGIAN_FRENCH_COMMA
            || lang_id == BELGIAN_FRENCH_PERIOD {
            Layout::Azerty
        } else if lang_id == CANADIAN_FRENCH {
            Layout::QwertyCFR
        } else {
            Layout::Qwerty
        }
    }
}

/// The identifier in a keyboard layout name as the system writes it
/// (hexadecimal digits); `None` when the name is malformed.
pub fn layout_name_id(name: &str) -> (r: Option<u32>)
    ensures
        r == parse_hex_u32(name@),
{
    let v = chars_of(name);
    assert(v@.skip(0) =~= v@);
    parse_hex_u32_exec(&v, 0)
}

/// The language identifier to register when the keyboard layout `id` is
/// of the preferred layout: its low 16 bits.
pub fn preferred_langid(id: u32, preferred: Layout) -> (r: Option<u16>)
    ensures
        r == (if install_layout_of(id) == preferred { Some(id as u16) } else { None::<u16> }),
{
    if Layout::from_lang_id(id) == preferred {
        Some(id as u16)
    } else {
        None
    }
}

} // verus!
