use vstd::prelude::*;

verus! {

/// An RGB triple. The display layer decides what to do with it; the core
/// only stores and compares colors.
#[derive(Clone, Copy, Debug, PartialEq, Eq, Structural)]
pub struct Color {
    pub r: u8,
    pub g: u8,
    pub b: u8,
}

impl Color {
    pub fn new(r: u8, g: u8, b: u8) -> (c: Color)
        ensures
            c == (Color { r, g, b }),
    {
        Color { r, g, b }
    }
}

pub fn white() -> (c: Color)
    ensures
        c == (Color { r: 255u8, g: 255u8, b: 255u8 }),
{
    Color { r: 255, g: 255, b: 255 }
}

pub fn red() -> (c: Color)
    ensures
        c == (Color { r: 255u8, g: 0u8, b: 0u8 }),
{
    Color { r: 255, g: 0, b: 0 }
}

pub fn green() -> (c: Color)
    ensures
        c == (Color { r: 0u8, g: 255u8, b: 0u8 }),
{
    Color { r: 0, g: 255, b: 0 }
}

pub fn yellow() -> (c: Color)
    ensures
        c == (Color { r: 255u8, g: 255u8, b: 0u8 }),
{
    Color { r: 255, g: 255, b: 0 }
}

pub fn cyan() -> (c: Color)
    ensures
        c == (Color { r: 0u8, g: 255u8, b: 255u8 }),
{
    Color { r: 0, g: 255, b: 255 }
}

pub fn orange() -> (c: Color)
    ensures
        c == (Color { r: 255u8, g: 127u8, b: 0u8 }),
{
    Color { r: 255, g: 127, b: 0 }
}

pub fn pink() -> (c: Color)
    ensures
        c == (Color { r: 255u8, g: 0u8, b: 127u8 }),
{
    Color { r: 255, g: 0, b: 127 }
}

pub fn violet() -> (c: Color)
    ensures
        c == (Color { r: 127u8, g: 0u8, b: 255u8 }),
{
    Color { r: 127, g: 0, b: 255 }
}

pub fn dark_red() -> (c: Color)
    ensures
        c == (Color { r: 191u8, g: 0u8, b: 0u8 }),
{
    Color { r: 191, g: 0, b: 0 }
}

pub fn darker_green() -> (c: Color)
    ensures
        c == (Color { r: 0u8, g: 127u8, b: 0u8 }),
{
    Color { r: 0, g: 127, b: 0 }
}

pub fn desaturated_green() -> (c: Color)
    ensures
        c == (Color { r: 63u8, g: 127u8, b: 63u8 }),
{
    Color { r: 63, g: 127, b: 63 }
}

pub fn light_green() -> (c: Color)
    ensures
        c == (Color { r: 63u8, g: 255u8, b: 63u8 }),
{
    Color { r: 63, g: 255, b: 63 }
}

pub fn light_yellow() -> (c: Color)
    ensures
        c == (Color { r: 255u8, g: 255u8, b: 63u8 }),
{
    Color { r: 255, g: 255, b: 63 }
}

pub fn light_blue() -> (c: Color)
    ensures
        c == (Color { r: 63u8, g: 63u8, b: 255u8 }),
{
    Color { r: 63, g: 63, b: 255 }
}

pub fn light_violet() -> (c: Color)
    ensures
        c == (Color { r: 159u8, g: 63u8, b: 255u8 }),
{
    Color { r: 159, g: 63, b: 255 }
}

pub fn darker_orange() -> (c: Color)
    ensures
        c == (Color { r: 127u8, g: 63u8, b: 0u8 }),
{
    Color { r: 127, g: 63, b: 0 }
}

} // verus!
