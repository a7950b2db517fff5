use vstd::prelude::*;

verus! {

/// US English (QWERTY).
pub const US: u16 = 0x0409;
/// Canadian French (QWERTY).
pub const CANADIAN_FRENCH: u32 = 0x00001009;
/// US English, Dvorak.
pub const US_DVORAK: u32 = 0x0001_0409;
/// French (AZERTY).
pub const FRENCH: u32 = 0x0000_040C;
/// Belgian French (AZERTY).
pub const BELGIAN_FRENCH: u32 = 0x0000_080C;
/// Belgian (comma), AZERTY.
pub const BELGIAN_FRENCH_COMMA: u32 = 0x0001_080C;
/// Belgian (period), AZERTY.
pub const BELGIAN_FRENCH_PERIOD: u32 = 0x0000_0813;
/// German (QWERTZ).
pub const GERMAN: u32 = 0x0000_0407;
/// German, IBM (QWERTZ).
pub const GERMAN_IBM: u32 = 0x0001_0407;
/// Swiss French (QWERTZ).
pub const SWISS_FRENCH: u32 = 0x0000_100C;

/// Keyboard layouts.
#[derive(Clone, Copy, PartialEq, Eq, Structural, Debug)]
pub enum Layout {
    Qwerty,
    Dvorak,
    Qwertz,
    Azerty,
    Custom,
    CanadianFrench,
}

/// The layout of a keyboard layout identifier.
pub open spec fn layout_of(lang_id: u32) -> Layout {
    if lang_id == US_DVORAK {
        Layout::Dvorak
    } else if lang_id == GERMAN || lang_id == GERMAN_IBM || lang_id == SWISS_FRENCH {
        Layout::Qwertz
    } else if lang_id == FRENCH || lang_id == BELGIAN_FRENCH || lang_id == BELGIAN_FRENCH_COMMA
        || lang_id == BELGIAN_FRENCH_PERIOD {
        Layout::Azerty
    } else if lang_id == CANADIAN_FRENCH {
        Layout::CanadianFrench
    } else if lang_id >> 28u32 == 0xA {
        Layout::Custom
    } else {
        Layout::Qwerty
    }
}

/// The layout named by `name` in the configuration.
pub open spec fn layout_named(name: Seq<char>) -> Option<Layout> {
    if name == "QWERTY"@ {
        Some(Layout::Qwerty)
    } else if name == "AZERTY"@ {
        Some(Layout::Azerty)
    } else if name == "DVORAK"@ {
        Some(Layout::Dvorak)
    } else if name == "QWERTZ"@ {
        Some(Layout::Qwertz)
    } else if name == "CUSTOM"@ {
        Some(Layout::Custom)
    } else if name == "QWERTY_CFR"@ {
        Some(Layout::CanadianFrench)
    } else {
        None
    }
}

/// Whether `value` is the text `lit`.
fn is_text(value: &str, lit: &str) -> (r: bool)
    ensures
        r == (value@ == lit@),
{
    String::from_str(value) == String::from_str(lit)
}

impl Layout {
    /// The layout of a keyboard layout identifier; identifiers with `A` as
    /// their highest digit are custom layouts.
    pub fn from_lang_id(lang_id: u32) -> (r: Layout)
        ensures
            r == layout_of(lang_id),
    {
        if lang_id == US_DVORAK {
            Layout::Dvorak
        } else if lang_id == GERMAN || lang_id == GERMAN_IBM || lang_id == SWISS_FRENCH {
            Layout::Qwertz
        } else if lang_id == FRENCH || lang_id == BELGIAN_FRENCH || lang_id == BELGIAN_FRENCH_COMMA
            || lang_id == BELGIAN_FRENCH_PERIOD {
            Layout::Azerty
        } else if lang_id == CANADIAN_FRENCH {
            Layout::CanadianFrench
        } else if lang_id >> 28u32 == 0xA {
            Layout::Custom
        } else {
            Layout::Qwerty
        }
    }

    /// The layout named `value` (`QWERTY`, `AZERTY`, `DVORAK`, `QWERTZ`,
    /// `CUSTOM` or `QWERTY_CFR`); any other name is an error.
    pub fn try_from(value: &str) -> (r: Result<Layout, ()>)
        ensures
            r == (match layout_named(value@) {
                Some(l) => Ok(l),
                None => Err(()),
            }),
    {
        if is_text(value, "QWERTY") {
            Ok(Layout::Qwerty)
        } else if is_text(value, "AZERTY") {
            Ok(Layout::Azerty)
        } else if is_text(value, "DVORAK") {
            Ok(Layout::Dvorak)
        } else if is_text(value, "QWERTZ") {
            Ok(Layout::Qwertz)
        } else if is_text(value, "CUSTOM") {
            Ok(Layout::Custom)
        } else if is_text(value, "QWERTY_CFR") {
            Ok(Layout::CanadianFrench)
        } else {
            Err(())
        }
    }
}

} // verus!
