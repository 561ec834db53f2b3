//! Image format metadata and the channel layout rules: which color layouts
//! are supported, which carry an alpha byte, and how many color bytes each
//! pixel contributes to the bit budget.

use vstd::prelude::*;
use crate::errors::StegError;

verus! {

/// The color layout of a decoded image, one byte per sample.
#[derive(Clone, Copy, Debug, PartialEq, Eq, Structural)]
pub enum ColorKind {
    Grayscale,
    Rgb,
    Indexed,
    GrayscaleAlpha,
    Rgba,
}

/// Format metadata of a decoded image; two images must agree on all fields
/// for extraction to compare them.
#[derive(Clone, Copy, Debug, PartialEq, Eq, Structural)]
pub struct ImageMeta {
    pub width: u32,
    pub height: u32,
    pub bit_depth: u8,
    pub color: ColorKind,
}

/// Whether the layout ends each pixel with an alpha byte.
pub open spec fn color_has_alpha(c: ColorKind) -> bool {
    c == ColorKind::GrayscaleAlpha || c == ColorKind::Rgba
}

/// Color (non-alpha) bytes per pixel; zero for the unsupported indexed
/// layout, which has no direct color samples.
pub open spec fn color_bpp(c: ColorKind) -> u8 {
    match c {
        ColorKind::Grayscale => 1,
        ColorKind::Rgb => 3,
        ColorKind::Indexed => 0,
        ColorKind::GrayscaleAlpha => 1,
        ColorKind::Rgba => 3,
    }
}

/// Splits a color layout into (has_alpha, bytes per pixel excluding alpha);
/// indexed layouts cannot carry data and are rejected.
pub fn channel_info(color: ColorKind) -> (r: Result<(bool, u8), StegError>)
    ensures
        (r is Err) == (color == ColorKind::Indexed),
        r matches Err(e) ==> e == StegError::UnsupportedImageFormat,
        r matches Ok(p) ==> p.0 == color_has_alpha(color) && p.1 == color_bpp(color),
{
    match color {
        ColorKind::Grayscale => Ok((false, 1)),
        ColorKind::Rgb => Ok((false, 3)),
        ColorKind::Indexed => Err(StegError::UnsupportedImageFormat),
        ColorKind::GrayscaleAlpha => Ok((true, 1)),
        ColorKind::Rgba => Ok((true, 3)),
    }
}

/// Rejects bit depths below 8: the capacity and placement arithmetic assume
/// at least one byte per sample.
pub fn check_bit_depth(depth: u8) -> (r: Result<(), StegError>)
    ensures
        (r is Ok) == (depth >= 8),
        r matches Err(e) ==> e == StegError::UnsupportedImageFormat,
{
    if depth >= 8 {
        Ok(())
    } else {
        Err(StegError::UnsupportedImageFormat)
    }
}

} // verus!
