//! Turning stored pictures into display pixels.

use image::DynamicImage;
use vstd::prelude::*;

use crate::tex::Rotation;

verus! {

/// A decoded picture of the `image` crate, held as it is.
#[verifier::external_type_specification]
#[verifier::external_body]
pub struct ExDynamicImage(DynamicImage);

/// Width and height of a picture, as `DynamicImage::width` and
/// `DynamicImage::height` report them.
pub uninterp spec fn image_size(image: DynamicImage) -> (u32, u32);

/// Pixels of a picture: for every column and row within its size, how the
/// channels of the pixel are to be read (their number, type and colour space),
/// followed by their bytes.
pub uninterp spec fn image_pixels(image: DynamicImage) -> Map<(int, int), Seq<u8>>;

/// A picture as a grid of pixels.
pub struct Raster {
    /// Width.
    pub w: int,
    /// Height.
    pub h: int,
    /// Pixel at each column and row.
    pub px: Map<(int, int), Seq<u8>>,
}

/// The grid of a picture.
pub open spec fn raster_of(image: DynamicImage) -> Raster {
    Raster { w: image_size(image).0 as int, h: image_size(image).1 as int, px: image_pixels(image) }
}

/// A grid of the given size whose pixel at `(x, y)` is that of `r` at
/// `from(x, y)`.
pub open spec fn redrawn(r: Raster, w: int, h: int, from: spec_fn(int, int) -> (int, int)) -> Raster {
    Raster {
        w,
        h,
        px: Map::new(
            |p: (int, int)| 0 <= p.0 < w && 0 <= p.1 < h,
            |p: (int, int)| r.px[from(p.0, p.1)],
        ),
    }
}

/// A quarter turn clockwise: the left column becomes the top row.
pub open spec fn quarter_turn(r: Raster) -> Raster {
    redrawn(r, r.h, r.w, |x: int, y: int| (y, r.h - 1 - x))
}

/// A half turn.
pub open spec fn half_turn(r: Raster) -> Raster {
    redrawn(r, r.w, r.h, |x: int, y: int| (r.w - 1 - x, r.h - 1 - y))
}

/// A quarter turn counter-clockwise: the right column becomes the top row.
pub open spec fn quarter_turn_back(r: Raster) -> Raster {
    redrawn(r, r.h, r.w, |x: int, y: int| (r.w - 1 - y, x))
}

/// Left and right exchanged.
pub open spec fn mirrored(r: Raster) -> Raster {
    redrawn(r, r.w, r.h, |x: int, y: int| (r.w - 1 - x, y))
}

/// Top and bottom exchanged.
pub open spec fn upended(r: Raster) -> Raster {
    redrawn(r, r.w, r.h, |x: int, y: int| (x, r.h - 1 - y))
}

/// Mirrored over the main diagonal.
pub open spec fn transposed_raster(r: Raster) -> Raster {
    redrawn(r, r.h, r.w, |x: int, y: int| (y, x))
}

/// Mirrored over the other diagonal.
pub open spec fn transversed(r: Raster) -> Raster {
    redrawn(r, r.h, r.w, |x: int, y: int| (r.w - 1 - y, r.h - 1 - x))
}

/// What an EXIF orientation flag asks for; unknown flags ask for nothing.
pub open spec fn exif_upright(r: Raster, flag: u16) -> Raster {
    match flag {
        2 => mirrored(r),
        3 => half_turn(r),
        4 => upended(r),
        5 => transposed_raster(r),
        6 => quarter_turn(r),
        7 => transversed(r),
        8 => quarter_turn_back(r),
        _ => r,
    }
}

/// `n` quarter turns clockwise.
pub open spec fn turned_by(r: Raster, n: int) -> Raster
    decreases n,
{
    if n <= 0 {
        r
    } else {
        quarter_turn(turned_by(r, n - 1))
    }
}

/// Display pixels of a stored picture: the EXIF correction, then the user's
/// turns, of which at most three are taken.
pub open spec fn upright(r: Raster, rotation: Rotation) -> Raster {
    turned_by(
        exif_upright(r, rotation.exif),
        if rotation.cw_turns < 3 {
            rotation.cw_turns as int
        } else {
            3
        },
    )
}

/// `DynamicImage::rotate90` turns the picture clockwise by a quarter: the
/// pixel at column `x` and row `y` of a picture of height `h` moves to column
/// `h - 1 - y` and row `x`.
pub assume_specification[ DynamicImage::rotate90 ](image: &DynamicImage) -> (out: DynamicImage)
    ensures
        image_size(out) == (image_size(*image).1, image_size(*image).0),
        image_pixels(out) == quarter_turn(raster_of(*image)).px,
;

/// `DynamicImage::rotate180` turns the picture by a half.
pub assume_specification[ DynamicImage::rotate180 ](image: &DynamicImage) -> (out: DynamicImage)
    ensures
        image_size(out) == image_size(*image),
        image_pixels(out) == half_turn(raster_of(*image)).px,
;

/// `DynamicImage::rotate270` turns the picture clockwise by three quarters:
/// the pixel at column `x` and row `y` of a picture of width `w` moves to
/// column `y` and row `w - 1 - x`.
pub assume_specification[ DynamicImage::rotate270 ](image: &DynamicImage) -> (out: DynamicImage)
    ensures
        image_size(out) == (image_size(*image).1, image_size(*image).0),
        image_pixels(out) == quarter_turn_back(raster_of(*image)).px,
;

/// `DynamicImage::fliph` exchanges left and right.
pub assume_specification[ DynamicImage::fliph ](image: &DynamicImage) -> (out: DynamicImage)
    ensures
        image_size(out) == image_size(*image),
        image_pixels(out) == mirrored(raster_of(*image)).px,
;

/// `DynamicImage::flipv` exchanges top and bottom.
pub assume_specification[ DynamicImage::flipv ](image: &DynamicImage) -> (out: DynamicImage)
    ensures
        image_size(out) == image_size(*image),
        image_pixels(out) == upended(raster_of(*image)).px,
;

/// Turns a stored picture into display pixels.
pub fn orient_upright(image: DynamicImage, rotation: Rotation) -> (out: DynamicImage)
    ensures
        raster_of(out) == upright(raster_of(image), rotation),
{
    let ghost stored = raster_of(image);
    let mut image = image;
    match rotation.exif {
        2 => {
            image = image.fliph();
        },
        3 => {
            image = image.rotate180();
        },
        4 => {
            image = image.flipv();
        },
        // The two diagonal mirrors are a quarter turn and an edge flip.
        5 => {
            image = image.rotate90();
            image = image.fliph();
            proof {
                quarter_turns_and_flips(stored);
            }
        },
        6 => {
            image = image.rotate90();
        },
        7 => {
            image = image.rotate90();
            image = image.flipv();
            proof {
                quarter_turns_and_flips(stored);
            }
        },
        8 => {
            image = image.rotate270();
        },
        _ => {},
    }
    let turns: u8 = if rotation.cw_turns < 3 {
        rotation.cw_turns
    } else {
        3
    };
    let mut n: u8 = 0;
    while n < turns
        invariant
            n <= turns <= 3,
            raster_of(image) == turned_by(exif_upright(stored, rotation.exif), n as int),
        decreases turns - n,
    {
        image = image.rotate90();
        n = n + 1;
    }
    image
}

/// A quarter turn and a flip make a diagonal mirror: left-right gives the
/// main diagonal, top-bottom the other one.
pub proof fn quarter_turns_and_flips(r: Raster)
    ensures
        mirrored(quarter_turn(r)) == transposed_raster(r),
        upended(quarter_turn(r)) == transversed(r),
{
    assert(mirrored(quarter_turn(r)).px =~= transposed_raster(r).px);
    assert(upended(quarter_turn(r)).px =~= transversed(r).px);
}

/// A grid has exactly the pixels of its size.
pub open spec fn complete(r: Raster) -> bool {
    forall|p: (int, int)| #[trigger] r.px.contains_key(p) <==> 0 <= p.0 < r.w && 0 <= p.1 < r.h
}

/// Two quarter turns are a half turn, three are one counter-clockwise, and
/// four bring every pixel back.
pub proof fn quarter_turns_compose(r: Raster)
    requires
        complete(r),
    ensures
        turned_by(r, 1) == quarter_turn(r),
        turned_by(r, 2) == half_turn(r),
        turned_by(r, 3) == quarter_turn_back(r),
        turned_by(r, 4) == r,
{
    reveal_with_fuel(turned_by, 5);
    let two = quarter_turn(quarter_turn(r));
    assert(two.px =~= half_turn(r).px);
    let three = quarter_turn(half_turn(r));
    assert(three.px =~= quarter_turn_back(r).px);
    let four = quarter_turn(quarter_turn_back(r));
    assert(four.px =~= r.px);
}

/// A clockwise and a counter-clockwise turn cancel, and each mirror undoes
/// itself.
pub proof fn turns_and_mirrors_cancel(r: Raster)
    requires
        complete(r),
    ensures
        quarter_turn_back(quarter_turn(r)) == r,
        quarter_turn(quarter_turn_back(r)) == r,
        half_turn(half_turn(r)) == r,
        mirrored(mirrored(r)) == r,
        upended(upended(r)) == r,
        transposed_raster(transposed_raster(r)) == r,
        transversed(transversed(r)) == r,
{
    assert(quarter_turn_back(quarter_turn(r)).px =~= r.px);
    assert(quarter_turn(quarter_turn_back(r)).px =~= r.px);
    assert(half_turn(half_turn(r)).px =~= r.px);
    assert(mirrored(mirrored(r)).px =~= r.px);
    assert(upended(upended(r)).px =~= r.px);
    assert(transposed_raster(transposed_raster(r)).px =~= r.px);
    assert(transversed(transversed(r)).px =~= r.px);
}

/// The user's turns come on top of the EXIF correction: a portrait flag and
/// one more turn make a half turn, and the flag that turns the other way and
/// one turn leave the picture as it was stored.
pub proof fn user_turns_follow_the_flag(r: Raster)
    requires
        complete(r),
    ensures
        upright(r, Rotation { exif: 6, cw_turns: 1 }) == upright(r, Rotation { exif: 3, cw_turns: 0 }),
        upright(r, Rotation { exif: 8, cw_turns: 1 }) == r,
        upright(r, Rotation { exif: 1, cw_turns: 3 }) == upright(r, Rotation { exif: 8, cw_turns: 0 }),
{
    quarter_turns_compose(r);
    turns_and_mirrors_cancel(r);
    reveal_with_fuel(turned_by, 4);
}

/// Width and height are exchanged exactly when the flag is one of the four
/// diagonal ones and the turns are even, or the other way round; this is how
/// the size of a photo on screen is found from its stored size.
pub proof fn upright_size(r: Raster, rotation: Rotation)
    requires
        rotation.cw_turns < 4,
    ensures
        ({
            let out = upright(r, rotation);
            if crate::model::transposed(rotation.exif, rotation.cw_turns) {
                out.w == r.h && out.h == r.w
            } else {
                out.w == r.w && out.h == r.h
            }
        }),
{
    reveal_with_fuel(turned_by, 5);
}

} // verus!
