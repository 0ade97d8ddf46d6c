//! The integer geometry of the scaling modes: layer sizes in pixels, where a
//! fitted image is placed, and the crop of a zoomed image.

use vstd::prelude::*;

verus! {

/// A logical length in pixels at a scale factor given in 120ths.
pub open spec fn spec_scaled_length(length: u32, scale: u32) -> u32 {
    ((length * scale) / 120) as u32
}

/// The length in pixels of `length` logical units at the scale `scale / 120`.
pub fn scaled_length(length: u32, scale: u32) -> (r: u32)
    requires
        length * scale <= u32::MAX,
    ensures
        r == spec_scaled_length(length, scale),
        r == (length * scale) / 120,
{
    length * scale / 120
}

/// Where an image of length `inner` starts so that it is centered in a layer
/// of length `outer` (rounded towards the start).
pub fn centered_offset(outer: u32, inner: u32) -> (r: u32)
    requires
        inner <= outer,
    ensures
        r == (outer - inner) / 2,
        r + inner <= outer,
        outer - (r + inner) - r == (outer - inner) % 2,
{
    (outer - inner) / 2
}

/// A rectangle of an image, in pixels.
#[derive(Debug)]
pub struct CropRect {
    pub x: u32,
    pub y: u32,
    pub width: u32,
    pub height: u32,
}

/// The length of a crop of `wanted` pixels from an image side of `side`
/// pixels: at most the side, at least one pixel.
pub open spec fn crop_length(side: u32, wanted: u32) -> u32 {
    if wanted > side {
        if side < 1 { 1 } else { side }
    } else {
        if wanted < 1 { 1 } else { wanted }
    }
}

/// The centered crop of `crop_width` by `crop_height` pixels from an image of
/// `width` by `height` pixels, each side clamped to the image and to at least
/// one pixel.
pub fn centered_crop(width: u32, height: u32, crop_width: u32, crop_height: u32) -> (r: CropRect)
    ensures
        r.width == crop_length(width, crop_width),
        r.height == crop_length(height, crop_height),
        r.x == (if width >= r.width { (width - r.width) / 2 } else { 0 }),
        r.y == (if height >= r.height { (height - r.height) / 2 } else { 0 }),
{
    let cw = clamp_crop(width, crop_width);
    let ch = clamp_crop(height, crop_height);
    CropRect { x: width.saturating_sub(cw) / 2, y: height.saturating_sub(ch) / 2, width: cw, height: ch }
}

/// `wanted.min(side).max(1)`.
fn clamp_crop(side: u32, wanted: u32) -> (r: u32)
    ensures
        r == crop_length(side, wanted),
{
    let m = if wanted > side { side } else { wanted };
    if m < 1 { 1 } else { m }
}

/// A crop of a non-empty image lies inside it, is not empty, and leaves as
/// much on either side, up to one pixel.
pub proof fn law_crop_inside(width: u32, height: u32, crop_width: u32, crop_height: u32, r: CropRect)
    requires
        width >= 1,
        height >= 1,
        r.width == crop_length(width, crop_width),
        r.height == crop_length(height, crop_height),
        r.x == (if width >= r.width { (width - r.width) / 2 } else { 0 }),
        r.y == (if height >= r.height { (height - r.height) / 2 } else { 0 }),
    ensures
        1 <= r.width <= width,
        1 <= r.height <= height,
        r.x + r.width <= width,
        r.y + r.height <= height,
        width - (r.x + r.width) - r.x <= 1,
        height - (r.y + r.height) - r.y <= 1,
{
}

} // verus!
