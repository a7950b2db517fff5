use vstd::prelude::*;

verus! {

/// Font of the candidate list.
pub struct Font {
    pub name: String,
    pub size: i32,
}

/// Colors of the candidate list, each one a `0xRRGGBB` value.
pub struct Color {
    pub candidate: u32,
    pub index: u32,
    pub background: u32,
    pub clip: u32,
    pub highlight: u32,
    pub highlighted: u32,
}

/// Layout of the candidate list.
pub struct Layout {
    pub vertical: bool,
}

/// The key that toggles the input method off temporarily.
#[derive(Clone, Copy, PartialEq, Eq, Structural, Debug)]
pub enum Toggle {
    Eisu,
    Ctrl,
    CapsLock,
}

impl Default for Toggle {
    fn default() -> (t: Self)
        ensures
            t == Toggle::Eisu,
    {
        Toggle::Eisu
    }
}

/// Switches that change how the engine composes its output.
#[derive(Clone, Copy, PartialEq, Eq, Structural, Debug)]
pub struct Behavior {
    pub long_pi: bool,
    pub long_glyph: bool,
    pub cjk_space: bool,
    pub toggle: Toggle,
}

/// The whole configuration of the input method.
pub struct Conf {
    pub font: Font,
    pub layout: Layout,
    pub color: Color,
    pub behavior: Behavior,
}

/// The red, green, blue and alpha bytes of the CSS color `css`, as
/// `csscolorparser` reads it; `None` when it is no color.
pub uninterp spec fn css_rgba(css: Seq<char>) -> Option<(u8, u8, u8, u8)>;

/// Reads a CSS color with `csscolorparser::parse` and takes its bytes with
/// `Color::to_rgba8`. Claims only that the result is [`css_rgba`] of the
/// text: what the parser accepts and how it rounds is left unsaid.
#[verifier::external_body]
fn parse_css_rgba(css: &str) -> (r: Option<(u8, u8, u8, u8)>)
    ensures
        r == css_rgba(css@),
{
    match csscolorparser::parse(css) {
        Ok(color) => {
            let [r, g, b, a] = color.to_rgba8();
            Some((r, g, b, a))
        },
        Err(_) => None,
    }
}

/// The color `0xRRGGBB` of its red, green and blue bytes.
pub fn rgb_value(r: u8, g: u8, b: u8) -> (c: u32)
    ensures
        c == r as u32 * 0x10000 + g as u32 * 0x100 + b as u32,
{
    r as u32 * 0x10000 + g as u32 * 0x100 + b as u32
}

/// The color `0xRRGGBB` that a CSS color (`"#0078D7"`, `"black"`) names,
/// its alpha left aside; `None` when the text is no color.
pub fn css_rgb(css: &str) -> (c: Option<u32>)
    ensures
        c == (match css_rgba(css@) {
            Some((r, g, b, _)) => Some((r as u32 * 0x10000 + g as u32 * 0x100 + b as u32) as u32),
            None => None::<u32>,
        }),
{
    match parse_css_rgba(css) {
        Some((r, g, b, _)) => Some(rgb_value(r, g, b)),
        None => None,
    }
}

/// Re-reads the configuration. The configuration is read once per process,
/// so this does nothing.
pub fn reload() {
}

} // verus!
