//! Colours: the palettes of the dark and the light appearance, and the hash that
//! gives every name its own hue.

use vstd::prelude::*;
use vstd::utf8::*;

verus! {

/// The roles a colour is used in.
#[derive(Clone, Copy, Debug, PartialEq, Eq, Structural)]
pub enum Ink {
    Black,
    Background,
    Orange,
    Amber,
    Tan,
    Lilac,
    Blue,
    Red,
    Green,
    Grey,
    Text,
    Panel,
    Hairline,
}

/// An opaque colour.
#[derive(Clone, Copy, Debug, PartialEq, Eq, Structural)]
pub struct Rgb {
    pub r: u8,
    pub g: u8,
    pub b: u8,
}

/// The colours one appearance draws with.
#[derive(Clone, Copy, Debug, PartialEq, Eq, Structural)]
pub struct Palette {
    /// Whether this is a dark appearance.
    pub dark_mode: bool,
    /// The darkest ink: text on a coloured pill. Not the window backdrop.
    pub black: Rgb,
    /// The window backdrop.
    pub bg: Rgb,
    pub orange: Rgb,
    pub amber: Rgb,
    pub tan: Rgb,
    pub lilac: Rgb,
    pub blue: Rgb,
    pub red: Rgb,
    pub green: Rgb,
    pub grey: Rgb,
    pub text: Rgb,
    pub panel: Rgb,
    pub hairline: Rgb,
}

/// The colour with these channels.
pub open spec fn channels(r: u8, g: u8, b: u8) -> Rgb {
    Rgb { r, g, b }
}

fn rgb(r: u8, g: u8, b: u8) -> (c: Rgb)
    ensures
        c == channels(r, g, b),
{
    Rgb { r, g, b }
}

/// The dark appearance.
pub open spec fn dark_palette() -> Palette {
    Palette {
        dark_mode: true,
        black: channels(0x00, 0x00, 0x00),
        bg: channels(0x00, 0x00, 0x00),
        orange: channels(0xFF, 0x99, 0x00),
        amber: channels(0xFF, 0xCC, 0x66),
        tan: channels(0xFF, 0xCC, 0x99),
        lilac: channels(0xCC, 0x99, 0xFF),
        blue: channels(0x66, 0x99, 0xFF),
        red: channels(0xE0, 0x66, 0x55),
        green: channels(0x66, 0xCC, 0x77),
        grey: channels(0x8A, 0x82, 0x74),
        text: channels(0xEB, 0xD0, 0xA0),
        panel: channels(0x0A, 0x08, 0x0C),
        hairline: channels(0x5C, 0x4E, 0x40),
    }
}

/// The light appearance.
pub open spec fn light_palette() -> Palette {
    Palette {
        dark_mode: false,
        black: channels(0x1A, 0x14, 0x10),
        bg: channels(0xF2, 0xEE, 0xE6),
        orange: channels(0xD9, 0x7A, 0x00),
        amber: channels(0xB5, 0x82, 0x0E),
        tan: channels(0xC7, 0x9A, 0x5E),
        lilac: channels(0x82, 0x57, 0xC7),
        blue: channels(0x2C, 0x6F, 0xB5),
        red: channels(0xB0, 0x36, 0x2A),
        green: channels(0x2E, 0x7D, 0x4F),
        grey: channels(0x8C, 0x87, 0x7C),
        text: channels(0x2A, 0x20, 0x18),
        panel: channels(0xE3, 0xDD, 0xD1),
        hairline: channels(0xB8, 0xAE, 0x9C),
    }
}

impl Palette {
    /// The dark appearance.
    pub fn dark() -> (r: Self)
        ensures
            r == dark_palette(),
    {
        Palette {
            dark_mode: true,
            black: rgb(0x00, 0x00, 0x00),
            bg: rgb(0x00, 0x00, 0x00),
            orange: rgb(0xFF, 0x99, 0x00),
            amber: rgb(0xFF, 0xCC, 0x66),
            tan: rgb(0xFF, 0xCC, 0x99),
            lilac: rgb(0xCC, 0x99, 0xFF),
            blue: rgb(0x66, 0x99, 0xFF),
            red: rgb(0xE0, 0x66, 0x55),
            green: rgb(0x66, 0xCC, 0x77),
            grey: rgb(0x8A, 0x82, 0x74),
            text: rgb(0xEB, 0xD0, 0xA0),
            panel: rgb(0x0A, 0x08, 0x0C),
            hairline: rgb(0x5C, 0x4E, 0x40),
        }
    }

    /// The light appearance.
    pub fn light() -> (r: Self)
        ensures
            r == light_palette(),
    {
        Palette {
            dark_mode: false,
            black: rgb(0x1A, 0x14, 0x10),
            bg: rgb(0xF2, 0xEE, 0xE6),
            orange: rgb(0xD9, 0x7A, 0x00),
            amber: rgb(0xB5, 0x82, 0x0E),
            tan: rgb(0xC7, 0x9A, 0x5E),
            lilac: rgb(0x82, 0x57, 0xC7),
            blue: rgb(0x2C, 0x6F, 0xB5),
            red: rgb(0xB0, 0x36, 0x2A),
            green: rgb(0x2E, 0x7D, 0x4F),
            grey: rgb(0x8C, 0x87, 0x7C),
            text: rgb(0x2A, 0x20, 0x18),
            panel: rgb(0xE3, 0xDD, 0xD1),
            hairline: rgb(0xB8, 0xAE, 0x9C),
        }
    }

    /// The colour of a role.
    pub fn ink(&self, role: Ink) -> (r: Rgb)
        ensures
            r == self.color_of(role),
    {
        match role {
            Ink::Black => self.black,
            Ink::Background => self.bg,
            Ink::Orange => self.orange,
            Ink::Amber => self.amber,
            Ink::Tan => self.tan,
            Ink::Lilac => self.lilac,
            Ink::Blue => self.blue,
            Ink::Red => self.red,
            Ink::Green => self.green,
            Ink::Grey => self.grey,
            Ink::Text => self.text,
            Ink::Panel => self.panel,
            Ink::Hairline => self.hairline,
        }
    }

    /// The colour of a role.
    pub open spec fn color_of(&self, role: Ink) -> Rgb {
        match role {
            Ink::Black => self.black,
            Ink::Background => self.bg,
            Ink::Orange => self.orange,
            Ink::Amber => self.amber,
            Ink::Tan => self.tan,
            Ink::Lilac => self.lilac,
            Ink::Blue => self.blue,
            Ink::Red => self.red,
            Ink::Green => self.green,
            Ink::Grey => self.grey,
            Ink::Text => self.text,
            Ink::Panel => self.panel,
            Ink::Hairline => self.hairline,
        }
    }
}

/// Whether a palette is a dark appearance.
pub fn is_dark(palette: &Palette) -> (r: bool)
    ensures
        r == palette.dark_mode,
{
    palette.dark_mode
}

/// The palette for a resolved theme.
pub fn palette_for(dark: bool) -> (r: Palette)
    ensures
        r == if dark {
            dark_palette()
        } else {
            light_palette()
        },
{
    if dark {
        Palette::dark()
    } else {
        Palette::light()
    }
}

/// The five colours that mean something on a review board (unchanged, only here,
/// will be deleted, differs, comes back) are five different colours, in both
/// appearances.
pub proof fn law_semantic_colours_differ(dark: bool, a: Ink, b: Ink)
    requires
        a is Grey || a is Green || a is Red || a is Amber || a is Blue,
        b is Grey || b is Green || b is Red || b is Amber || b is Blue,
        a != b,
    ensures
        ({
            let p = if dark {
                dark_palette()
            } else {
                light_palette()
            };
            p.color_of(a) != p.color_of(b)
        }),
{
}

/// One step of the FNV-1a hash.
pub open spec fn fnv_step(hash: u32, byte: u8) -> u32 {
    (((hash ^ (byte as u32)) * 16777619) % 0x1_0000_0000) as u32
}

/// The FNV-1a hash of a byte sequence.
pub open spec fn fnv(bytes: Seq<u8>) -> u32
    decreases bytes.len(),
{
    if bytes.len() == 0 {
        2166136261
    } else {
        fnv_step(fnv(bytes.drop_last()), bytes.last())
    }
}

/// FNV-1a hash of a string, from which stable per-name colours and patterns are
/// derived.
pub fn name_hash(s: &str) -> (r: u32)
    ensures
        r == fnv(encode_utf8(s@)),
{
    let bytes = s.as_bytes();
    let mut hash: u32 = 2166136261;
    let mut i: usize = 0;
    assert(bytes@.take(0) =~= Seq::<u8>::empty());
    while i < bytes.len()
        invariant
            i <= bytes@.len(),
            hash == fnv(bytes@.take(i as int)),
        decreases bytes@.len() - i,
    {
        proof {
            assert(bytes@.take(i + 1).drop_last() =~= bytes@.take(i as int));
            assert(bytes@.take(i + 1).last() == bytes@[i as int]);
        }
        let mixed: u32 = hash ^ (bytes[i] as u32);
        hash = mixed.wrapping_mul(16777619);
        i += 1;
    }
    assert(bytes@.take(i as int) =~= bytes@);
    hash
}

/// The hue of a name, in degrees.
pub open spec fn hue_of(name: Seq<char>) -> u32 {
    fnv(encode_utf8(name)) % 360
}

/// Each role has its own colour of a palette.
pub proof fn law_a_role_has_its_own_colour(p: Palette)
    ensures
        p.color_of(Ink::Black) == p.black,
        p.color_of(Ink::Background) == p.bg,
        p.color_of(Ink::Orange) == p.orange,
        p.color_of(Ink::Amber) == p.amber,
        p.color_of(Ink::Tan) == p.tan,
        p.color_of(Ink::Lilac) == p.lilac,
        p.color_of(Ink::Blue) == p.blue,
        p.color_of(Ink::Red) == p.red,
        p.color_of(Ink::Green) == p.green,
        p.color_of(Ink::Grey) == p.grey,
        p.color_of(Ink::Text) == p.text,
        p.color_of(Ink::Panel) == p.panel,
        p.color_of(Ink::Hairline) == p.hairline,
{
}

/// In the dark appearance the text is lighter than the backdrop in every channel, and
/// in the light one it is darker; red is mostly red, green mostly green and blue mostly
/// blue in both.
pub proof fn law_appearances_are_what_they_say(dark: bool)
    ensures
        ({
            let p = if dark {
                dark_palette()
            } else {
                light_palette()
            };
            &&& p.dark_mode == dark
            &&& dark ==> p.text.r > p.bg.r + 100 && p.text.g > p.bg.g + 100 && p.text.b > p.bg.b
                + 100
            &&& !dark ==> p.text.r + 100 < p.bg.r && p.text.g + 100 < p.bg.g && p.text.b + 100
                < p.bg.b
            &&& p.red.r > p.red.g && p.red.r > p.red.b
            &&& p.green.g > p.green.r && p.green.g > p.green.b
            &&& p.blue.b > p.blue.r && p.blue.b > p.blue.g
        }),
{
}

/// Each further byte is mixed into the hash by an exclusive or and a multiplication
/// that keeps 32 bits.
pub proof fn law_the_hash_takes_byte_by_byte(bytes: Seq<u8>, byte: u8)
    ensures
        fnv(Seq::empty()) == 0x811c9dc5,
        fnv(bytes.push(byte)) == ((fnv(bytes) ^ (byte as u32)) * 0x01000193) % 0x1_0000_0000,
{
    assert(bytes.push(byte).drop_last() =~= bytes);
}

/// A hue is an angle.
pub proof fn law_a_hue_is_an_angle(name: Seq<char>)
    ensures
        hue_of(name) < 360,
        exists|turns: int| #[trigger] (turns * 360) + hue_of(name) == fnv(encode_utf8(name)),
{
    let turns = (fnv(encode_utf8(name)) / 360) as int;
    assert((turns * 360) + hue_of(name) == fnv(encode_utf8(name)));
}

} // verus!
