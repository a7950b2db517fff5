use vstd::prelude::*;
use std::char::DecodeUtf16Error;
use crate::text::{push_char, spec_is_joiner, utf16_of, utf16_of_str};

verus! {

/// Whether `c` is a joiner: the zero-width joiner, the stack joiner or the
/// scale joiner.
pub fn is_joiner_char(c: char) -> (r: bool)
    ensures
        r == spec_is_joiner(c),
{
    c == '\u{F1995}' || c == '\u{F1996}' || c == '\u{200D}'
}

/// Passing a result on after its error was noted.
pub trait ResultExt: Sized {
    fn log_err(self) -> Self;
}

impl<T, E> ResultExt for Result<T, E> {
    /// The result itself.
    fn log_err(self) -> (r: Self)
        ensures
            r == self,
    {
        self
    }
}

/// The language of a keyboard layout handle.
pub trait HKLExt {
    fn langid(self) -> u16;
}

impl HKLExt for isize {
    /// The language identifier: the low 16 bits of the handle.
    fn langid(self) -> (r: u16)
        ensures
            r == self as u16,
    {
        let h = self;
        assert(((h & 0xFFFF) as u16) == h as u16) by (bit_vector);
        (h & 0xFFFF) as u16
    }
}

/// An upper-case hexadecimal digit.
pub open spec fn hex_upper(d: u8) -> char {
    if d < 10 {
        (48 + d) as char
    } else {
        (55 + d) as char
    }
}

/// The `i`-th of the 32 hexadecimal digits of `n`, from the left.
pub open spec fn nibble(n: u128, i: int) -> u8 {
    ((n >> ((124 - 4 * i) as u128)) & 0xF) as u8
}

/// The 32 upper-case hexadecimal digits of `n`.
pub open spec fn hex32(n: u128) -> Seq<char> {
    Seq::new(32, |i: int| hex_upper(nibble(n, i)))
}

/// The RFC 4122 form of a GUID: `XXXXXXXX-XXXX-XXXX-XXXX-XXXXXXXXXXXX`.
pub open spec fn rfc4122(n: u128) -> Seq<char> {
    let h = hex32(n);
    h.subrange(0, 8) + seq!['-'] + h.subrange(8, 12) + seq!['-'] + h.subrange(12, 16) + seq!['-']
        + h.subrange(16, 20) + seq!['-'] + h.subrange(20, 32)
}

/// A GUID, as its 128-bit value, written out.
pub trait GUIDExt {
    fn to_rfc4122(&self) -> String;
}

impl GUIDExt for u128 {
    /// The GUID in its RFC 4122 form, upper case.
    fn to_rfc4122(&self) -> (r: String)
        ensures
            r@ == rfc4122(*self),
    {
        let n = *self;
        let mut digits: Vec<char> = Vec::new();
        let mut i: u32 = 0;
        while i < 32
            invariant
                0 <= i <= 32,
                digits@ == hex32(n).take(i as int),
            decreases 32 - i,
        {
            let shift: u32 = 124 - 4 * i;
            let d: u8 = ((n >> shift) & 0xF) as u8;
            assert(((n >> shift) & 0xF) < 16) by (bit_vector);
            let c: char = if d < 10 {
                (48 + d) as char
            } else {
                (55 + d) as char
            };
            proof {
                assert(shift as u128 == (124 - 4 * i) as u128);
                assert(d == nibble(n, i as int));
                assert(c == hex_upper(d));
            }
            digits.push(c);
            proof {
                assert(hex32(n).take(i + 1) =~= hex32(n).take(i as int).push(c));
            }
            i = i + 1;
        }
        proof {
            assert(hex32(n).take(32) =~= hex32(n));
        }
        let mut r = String::new();
        let mut k: usize = 0;
        let ghost h = hex32(n);
        while k < 32
            invariant
                0 <= k <= 32,
                digits@ == h,
                h == hex32(n),
                r@ == rfc4122(n).take((k + (if k > 8 { 1int } else { 0int }) + (if k > 12 { 1int } else { 0int })
                    + (if k > 16 { 1int } else { 0int }) + (if k > 20 { 1int } else { 0int })) as int),
            decreases 32 - k,
        {
            if k == 8 || k == 12 || k == 16 || k == 20 {
                push_char(&mut r, '-');
                proof {
                    let j = k + (if k > 8 { 1int } else { 0int }) + (if k > 12 { 1int } else { 0int })
                        + (if k > 16 { 1int } else { 0int }) + (if k > 20 { 1int } else { 0int });
                    assert(rfc4122(n)[j] == '-');
                    assert(rfc4122(n).take(j + 1) =~= rfc4122(n).take(j).push('-'));
                }
            }
            push_char(&mut r, digits[k]);
            proof {
                let j = k + (if k >= 8 { 1int } else { 0int }) + (if k >= 12 { 1int } else { 0int })
                    + (if k >= 16 { 1int } else { 0int }) + (if k >= 20 { 1int } else { 0int });
                assert(rfc4122(n)[j] == h[k as int]);
                assert(rfc4122(n).take(j + 1) =~= rfc4122(n).take(j).push(h[k as int]));
            }
            k = k + 1;
        }
        proof {
            assert(rfc4122(n).take(36) =~= rfc4122(n));
        }
        r
    }
}

/// Text as UTF-16 code units, the form the system takes.
pub trait OsStrExt2 {
    fn to_wchars(&self) -> Vec<u16>;
    fn to_null_terminated_wchars(&self) -> Vec<u16>;
}

impl OsStrExt2 for str {
    /// The UTF-16 code units of the text.
    fn to_wchars(&self) -> (r: Vec<u16>)
        ensures
            r@ == utf16_of(self@),
    {
        utf16_of_str(self)
    }

    /// The UTF-16 code units of the text, then a 0.
    fn to_null_terminated_wchars(&self) -> (r: Vec<u16>)
        ensures
            r@ == utf16_of(self@).push(0),
    {
        let mut r = utf16_of_str(self);
        r.push(0);
        r
    }
}

/// The error of `char::decode_utf16` on a surrogate that is not part of a
/// pair.
#[verifier::external_type_specification]
#[verifier::external_body]
pub struct ExDecodeUtf16Error(DecodeUtf16Error);

/// Decodes one UTF-16 code unit with `char::decode_utf16`: a unit that is
/// not a surrogate is the character of that code point, a surrogate alone
/// is an error.
#[verifier::external_body]
fn decode_utf16_unit(value: u16) -> (r: Result<char, DecodeUtf16Error>)
    ensures
        r is Ok <==> !(0xD800 <= value <= 0xDFFF),
        r matches Ok(c) ==> c == value as char,
{
    char::decode_utf16([value]).next().unwrap()
}

/// Characters that join glyphs, and characters from UTF-16.
pub trait CharExt: Sized {
    fn is_joiner(&self) -> bool;
    fn try_from_utf16(value: u16) -> Result<char, DecodeUtf16Error>;
}

impl CharExt for char {
    /// Whether the character is a joiner.
    fn is_joiner(&self) -> (r: bool)
        ensures
            r == spec_is_joiner(*self),
    {
        is_joiner_char(*self)
    }

    /// The character of a single UTF-16 code unit; a surrogate is an error.
    fn try_from_utf16(value: u16) -> (r: Result<char, DecodeUtf16Error>)
        ensures
            r is Ok <==> !(0xD800 <= value <= 0xDFFF),
            r matches Ok(c) ==> c == value as char,
    {
        decode_utf16_unit(value)
    }
}

/// The texts of a list of strings.
pub trait IterStr<'a> {
    fn iter_str(&'a self) -> Vec<&'a str>;
}

impl<'a> IterStr<'a> for Vec<String> {
    /// The strings of the list as text slices, in order.
    fn iter_str(&'a self) -> (r: Vec<&'a str>)
        ensures
            r@.len() == self@.len(),
            forall|i: int| 0 <= i < r@.len() ==> #[trigger] r@[i]@ == self@[i]@,
    {
        let mut r: Vec<&'a str> = Vec::new();
        let mut k: usize = 0;
        while k < self.len()
            invariant
                0 <= k <= self@.len(),
                r@.len() == k,
                forall|i: int| 0 <= i < k ==> #[trigger] r@[i]@ == self@[i]@,
            decreases self@.len() - k,
        {
            r.push(self[k].as_str());
            k = k + 1;
        }
        r
    }
}

/// The state of a key as the system reports it.
pub trait VKExt {
    fn is_down(&self) -> bool;
    fn is_toggled(&self) -> bool;
}

impl VKExt for i16 {
    /// Whether the key is held down: the high bit of the state.
    fn is_down(&self) -> (r: bool)
        ensures
            r == (*self < 0),
    {
        let r = (*self as u16) & 0x8000 != 0;
        let s = *self;
        assert(((s as u16) & 0x8000 != 0) == (s < 0)) by (bit_vector);
        r
    }

    /// Whether the key is toggled on: the low bit of the state.
    fn is_toggled(&self) -> (r: bool)
        ensures
            r == ((*self as u16) % 2 == 1),
    {
        let s = *self;
        let r = (s as u16) & 1 != 0;
        assert(((s as u16) & 1 != 0) == ((s as u16) % 2 == 1)) by (bit_vector);
        r
    }
}

/// The system color value (`0x00BBGGRR`) of a color given by its red,
/// green and blue parts.
pub fn color_ref(r: u8, g: u8, b: u8) -> (c: u32)
    ensures
        c == b as u32 * 0x10000 + g as u32 * 0x100 + r as u32,
{
    b as u32 * 0x10000 + g as u32 * 0x100 + r as u32
}

} // verus!
