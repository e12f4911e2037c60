//! Colours: four premultiplied RGBA bytes, as stored by the map images.
use vstd::prelude::*;

verus! {

/// A colour as four premultiplied bytes.
#[derive(Clone, Copy, Debug, PartialEq, Eq, Structural)]
pub struct Rgba {
    pub r: u8,
    pub g: u8,
    pub b: u8,
    pub a: u8,
}

pub open spec fn rgba(r: u8, g: u8, b: u8, a: u8) -> Rgba {
    Rgba { r, g, b, a }
}

impl Rgba {
    /// An opaque colour.
    pub fn from_rgb(r: u8, g: u8, b: u8) -> (c: Rgba)
        ensures
            c == rgba(r, g, b, 255),
    {
        Rgba { r, g, b, a: 255 }
    }

    pub fn transparent() -> (c: Rgba)
        ensures
            c == rgba(0, 0, 0, 0),
    {
        Rgba { r: 0, g: 0, b: 0, a: 0 }
    }

    pub fn white() -> (c: Rgba)
        ensures
            c == rgba(255, 255, 255, 255),
    {
        Rgba::from_rgb(255, 255, 255)
    }

    pub fn black() -> (c: Rgba)
        ensures
            c == rgba(0, 0, 0, 255),
    {
        Rgba::from_rgb(0, 0, 0)
    }

    pub fn red() -> (c: Rgba)
        ensures
            c == rgba(255, 0, 0, 255),
    {
        Rgba::from_rgb(255, 0, 0)
    }

    pub fn blue() -> (c: Rgba)
        ensures
            c == rgba(0, 0, 255, 255),
    {
        Rgba::from_rgb(0, 0, 255)
    }

    pub fn light_blue() -> (c: Rgba)
        ensures
            c == rgba(0xAD, 0xD8, 0xE6, 255),
    {
        Rgba::from_rgb(0xAD, 0xD8, 0xE6)
    }

    pub fn gold() -> (c: Rgba)
        ensures
            c == rgba(255, 215, 0, 255),
    {
        Rgba::from_rgb(255, 215, 0)
    }

    pub fn gray() -> (c: Rgba)
        ensures
            c == rgba(160, 160, 160, 255),
    {
        Rgba::from_rgb(160, 160, 160)
    }
}

/// Colour of cells that have no landscape.
pub fn default_color() -> (c: Rgba)
    ensures
        c == rgba(0, 0, 0, 0),
{
    Rgba::transparent()
}

/// Mean of two channel values, rounded down.
pub open spec fn half_sum(x: u8, y: u8) -> u8 {
    ((x as int + y as int) / 2) as u8
}

/// Overlays `color2` on `color1` with equal weights, giving an opaque colour:
/// each channel is the mean of the two, rounded down.
pub fn overlay_colors_half(color1: Rgba, color2: Rgba) -> (c: Rgba)
    ensures
        c == rgba(
            half_sum(color1.r, color2.r),
            half_sum(color1.g, color2.g),
            half_sum(color1.b, color2.b),
            255,
        ),
{
    let r = ((color1.r as u16 + color2.r as u16) / 2) as u8;
    let g = ((color1.g as u16 + color2.g as u16) / 2) as u8;
    let b = ((color1.b as u16 + color2.b as u16) / 2) as u8;
    Rgba { r, g, b, a: 255 }
}

/// Colour of the travel lines of a service class.
pub fn get_color_for_class(class: &str) -> (c: Rgba)
    ensures
        c == if class@ == "Shipmaster"@ {
            rgba(0, 0, 255, 255)
        } else if class@ == "Caravaner"@ {
            rgba(255, 215, 0, 255)
        } else if class@ == "Gondolier"@ {
            rgba(160, 160, 160, 255)
        } else if class@ == "T_Mw_RiverstriderService"@ {
            rgba(0xAD, 0xD8, 0xE6, 255)
        } else {
            rgba(255, 0, 0, 255)
        },
{
    let name = String::from_str(class);
    if name == String::from_str("Shipmaster") {
        Rgba::blue()
    } else if name == String::from_str("Caravaner") {
        Rgba::gold()
    } else if name == String::from_str("Gondolier") {
        Rgba::gray()
    } else if name == String::from_str("T_Mw_RiverstriderService") {
        Rgba::light_blue()
    } else {
        Rgba::red()
    }
}

} // verus!
