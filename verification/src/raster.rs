//! The raster export contract: trusted declarations for the outside image
//! type that receives the per-pixel colors.

use vstd::prelude::*;

verus! {

#[verifier::external_type_specification]
#[verifier::external_body]
pub struct ExImage(bmp::Image);

/// The colors an image holds, keyed by coordinate; a color is an
/// `(r, g, b)` triple of 8-bit channels.
pub uninterp spec fn image_pixels(img: bmp::Image) -> Map<(u32, u32), (u8, u8, u8)>;

/// The `(width, height)` an image was made with.
pub uninterp spec fn image_dims(img: bmp::Image) -> (u32, u32);

/// The full coordinate grid `[0, width) x [0, height)`.
pub open spec fn raster_coords(width: u32, height: u32) -> Set<(u32, u32)> {
    Set::new(|p: (u32, u32)| p.0 < width && p.1 < height)
}

/// Relies on `bmp::Image::new`: it builds a `width` by `height` image holding
/// one pixel per coordinate of the grid, each initialized to black.  The size
/// bound keeps the encoder's `u32` byte counts from overflowing.
#[verifier::external_body]
pub(crate) fn image_new(width: u32, height: u32) -> (img: bmp::Image)
    requires
        4 * (width as int) * (height as int) <= u32::MAX as int,
    ensures
        image_dims(img) == (width, height),
        image_pixels(img).dom() == raster_coords(width, height),
        forall|x: u32, y: u32|
            x < width && y < height ==> #[trigger] image_pixels(img)[(x, y)] == (0u8, 0u8, 0u8),
{
    bmp::Image::new(width, height)
}

/// Relies on `bmp::Image::set_pixel`: it stores the given color at `(x, y)`
/// and leaves every other pixel, and the dimensions, unchanged.
#[verifier::external_body]
pub(crate) fn image_set_pixel(img: &mut bmp::Image, x: u32, y: u32, r: u8, g: u8, b: u8)
    requires
        x < image_dims(*old(img)).0,
        y < image_dims(*old(img)).1,
    ensures
        image_dims(*final(img)) == image_dims(*old(img)),
        image_pixels(*final(img)) == image_pixels(*old(img)).insert((x, y), (r, g, b)),
{
    img.set_pixel(x, y, bmp::Pixel { r, g, b });
}

} // verus!
