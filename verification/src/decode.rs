//! Laying out decoded pictures for display.

use image::DynamicImage;
use vstd::prelude::*;

use crate::extract::cut_to_pixels;
use crate::orient::{image_pixels, image_size, orient_upright, raster_of, upright, Raster};
use crate::tex::{Picture, Rotation};

verus! {

/// The pixels of a picture as rows of eight-bit red, green, blue and alpha.
pub uninterp spec fn rgba_rows(size: (u32, u32), pixels: Map<(int, int), Seq<u8>>) -> Seq<u8>;

/// `DynamicImage::to_rgba8` gives the pixels as eight-bit red, green, blue and
/// alpha, four bytes for each. A picture may come with a longer buffer than its
/// size needs; what lies behind the pixels is handed on, and nothing is claimed
/// of it.
#[verifier::external_body]
fn rgba_of(image: &DynamicImage) -> (rgba: Vec<u8>)
    ensures
        rgba@.len() >= image_size(*image).0 * image_size(*image).1 * 4,
        rgba@.take(image_size(*image).0 * image_size(*image).1 * 4) == rgba_rows(
            image_size(*image),
            image_pixels(*image),
        ),
{
    image.to_rgba8().into_raw()
}

/// A grid of pixels ready for upload: its size, and its rows.
pub open spec fn is_display_picture(picture: Picture<Vec<u8>>, r: Raster) -> bool {
    &&& picture.width == r.w
    &&& picture.height == r.h
    &&& picture.pixels@ == rgba_rows((picture.width, picture.height), r.px)
    &&& picture.pixels@.len() == r.w * r.h * 4
}

/// Turns a decoded picture upright and lays out its pixels for upload.
pub fn display_picture(image: DynamicImage, rotation: Rotation) -> (picture: Picture<Vec<u8>>)
    ensures
        is_display_picture(picture, upright(raster_of(image), rotation)),
{
    let turned: DynamicImage = orient_upright(image, rotation);
    let width: u32 = turned.width();
    let height: u32 = turned.height();
    Picture { width, height, pixels: cut_to_pixels(rgba_of(&turned), width, height, 4) }
}

/// Lays out what decoding gave for display: a picture is turned upright, a
/// failure keeps its words.
pub fn displayed(loaded: Result<DynamicImage, String>, rotation: Rotation) -> (result: Result<Picture<Vec<u8>>, String>)
    ensures
        match loaded {
            Ok(image) => result matches Ok(picture) && is_display_picture(picture, upright(raster_of(image), rotation)),
            Err(reason) => result == Err::<Picture<Vec<u8>>, String>(reason),
        },
{
    match loaded {
        Ok(image) => Ok(display_picture(image, rotation)),
        Err(reason) => Err(reason),
    }
}

} // verus!
