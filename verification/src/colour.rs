//! Colours of agents, messages and badges.

use vstd::prelude::*;

verus! {

/// A colour with premultiplied alpha.
#[derive(Clone, Copy, Debug, PartialEq, Eq, Structural)]
pub struct Rgba {
    pub r: u8,
    pub g: u8,
    pub b: u8,
    pub a: u8,
}

/// `egui::Color32::from_rgb`, read back with `to_array`: the three channels as given and full
/// opacity.
#[verifier::external_body]
pub(crate) fn from_rgb(r: u8, g: u8, b: u8) -> (c: Rgba)
    ensures
        c == (Rgba { r, g, b, a: 255 }),
{
    let [r, g, b, a] = eframe::egui::Color32::from_rgb(r, g, b).to_array();
    Rgba { r, g, b, a }
}

/// `egui::Color32::GRAY`, read with `to_array`: opaque, 160 in each channel.
#[verifier::external_body]
pub(crate) fn gray() -> (c: Rgba)
    ensures
        c == gray_colour(),
{
    let [r, g, b, a] = eframe::egui::Color32::GRAY.to_array();
    Rgba { r, g, b, a }
}

/// The colour of system lines and of the badge of the default mode.
pub open spec fn gray_colour() -> Rgba {
    opaque((160, 160, 160))
}

/// Accent colours of the agents: green, amber, violet, sky, rose, teal.
pub const PALETTE: [(u8, u8, u8); 6] = [
    (0x9E, 0xE0, 0x93),
    (0xE0, 0xC0, 0x60),
    (0xC0, 0x90, 0xE0),
    (0x90, 0xC8, 0xE0),
    (0xE0, 0x90, 0x90),
    (0x80, 0xD8, 0xC0),
];

/// The opaque colour with the given channels.
pub open spec fn opaque(rgb: (u8, u8, u8)) -> Rgba {
    Rgba { r: rgb.0, g: rgb.1, b: rgb.2, a: 255 }
}

/// The accent colour of the agent at position `i`.
pub open spec fn palette_colour(i: int) -> Rgba {
    opaque(PALETTE[i % 6])
}

/// The accent colour of the agent at position `i`.
pub fn palette(i: usize) -> (c: Rgba)
    ensures
        c == palette_colour(i as int),
{
    let (r, g, b) = PALETTE[i % 6];
    from_rgb(r, g, b)
}

/// The colours repeat after six agents, and six agents in a row all differ in colour.
pub proof fn law_palette_cycles(i: int, j: int)
    requires
        0 <= i,
        0 <= j,
    ensures
        palette_colour(i) == palette_colour(j) <==> i % 6 == j % 6,
{
    assert(i % 6 == j % 6 || palette_colour(i) != palette_colour(j)) by {
        let a = i % 6;
        let b = j % 6;
        assert(a == 0 || a == 1 || a == 2 || a == 3 || a == 4 || a == 5);
        assert(b == 0 || b == 1 || b == 2 || b == 3 || b == 4 || b == 5);
    }
}

/// The colours of the agents, in order, and the gray of system lines: all opaque.
pub proof fn law_colours(i: int)
    requires
        0 <= i,
    ensures
        palette_colour(6 * i) == (Rgba { r: 0x9E, g: 0xE0, b: 0x93, a: 255 }),
        palette_colour(6 * i + 1) == (Rgba { r: 0xE0, g: 0xC0, b: 0x60, a: 255 }),
        palette_colour(6 * i + 2) == (Rgba { r: 0xC0, g: 0x90, b: 0xE0, a: 255 }),
        palette_colour(6 * i + 3) == (Rgba { r: 0x90, g: 0xC8, b: 0xE0, a: 255 }),
        palette_colour(6 * i + 4) == (Rgba { r: 0xE0, g: 0x90, b: 0x90, a: 255 }),
        palette_colour(6 * i + 5) == (Rgba { r: 0x80, g: 0xD8, b: 0xC0, a: 255 }),
        gray_colour() == (Rgba { r: 160, g: 160, b: 160, a: 255 }),
{
}

} // verus!
