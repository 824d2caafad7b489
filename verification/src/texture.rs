//! Texture maps: a rectangle of colours, row by row from the top, sampled at
//! whole pixel coordinates that are brought into the rectangle first.

use crate::picture::{dimensions, image_rgba, image_sides, to_rgba8};
use vstd::prelude::*;

verus! {

/// A colour with eight bits for each of red, green and blue.
#[derive(Debug, Clone, Copy, PartialEq, Eq)]
pub struct Rgb {
    pub r: u8,
    pub g: u8,
    pub b: u8,
}

/// A texture: `width` times `height` colours, row by row from the top.
#[derive(Debug)]
pub struct TextureMap {
    image: Vec<Rgb>,
    width: i32,
    height: i32,
}

/// The colours that the bytes `rgba` hold, four bytes to a pixel, the fourth
/// of which is not a colour.
pub open spec fn pixels_of(rgba: Seq<u8>) -> Seq<Rgb> {
    Seq::new(
        (rgba.len() / 4) as nat,
        |i: int| Rgb { r: rgba[4 * i], g: rgba[4 * i + 1], b: rgba[4 * i + 2] },
    )
}

/// `value`, or the end of the range from `low` to `high` that it lies
/// beyond.
pub open spec fn clamped(value: int, low: int, high: int) -> int {
    if value < low {
        low
    } else if value > high {
        high
    } else {
        value
    }
}

/// The place, in a texture `width` wide and `height` high, of the pixel that
/// is sampled at column `x` and row `y`: a coordinate outside the texture
/// takes the nearest column or row.
pub open spec fn sample_place(width: int, height: int, x: int, y: int) -> int {
    clamped(y, 0, height - 1) * width + clamped(x, 0, width - 1)
}

/// The place that is sampled lies inside the texture.
pub proof fn lemma_sample_place(width: int, height: int, x: int, y: int)
    requires
        width > 0,
        height > 0,
    ensures
        0 <= sample_place(width, height, x, y) < width * height,
{
    let row = clamped(y, 0, height - 1);
    let column = clamped(x, 0, width - 1);
    assert(0 <= row * width && row * width + width <= height * width && height * width == width
        * height) by (nonlinear_arith)
        requires
            0 <= row < height,
            width > 0,
    ;
}

impl View for TextureMap {
    type V = Seq<Rgb>;

    /// The colours, row by row from the top.
    closed spec fn view(&self) -> Seq<Rgb> {
        self.image@
    }
}

impl TextureMap {
    #[verifier::type_invariant]
    spec fn well_formed(&self) -> bool {
        &&& self.width >= 0
        &&& self.height >= 0
        &&& self.image.len() == self.width * self.height
    }

    /// The number of columns.
    pub closed spec fn spec_width(&self) -> i32 {
        self.width
    }

    /// The number of rows.
    pub closed spec fn spec_height(&self) -> i32 {
        self.height
    }

    /// The number of columns.
    #[verifier::when_used_as_spec(spec_width)]
    pub fn width(&self) -> (width: i32)
        ensures
            width == self.spec_width(),
            width >= 0,
    {
        proof {
            use_type_invariant(self);
        }
        self.width
    }

    /// The number of rows.
    #[verifier::when_used_as_spec(spec_height)]
    pub fn height(&self) -> (height: i32)
        ensures
            height == self.spec_height(),
            height >= 0,
    {
        proof {
            use_type_invariant(self);
        }
        self.height
    }

    /// The texture of `width` columns and `height` rows whose pixels `rgba`
    /// holds row by row from the top, four bytes to a pixel: red, green,
    /// blue, and a fourth that is left out. There is none where `rgba` does
    /// not hold exactly that many pixels, or where a side is longer than
    /// `i32::MAX`.
    pub fn from_rgba(width: u32, height: u32, rgba: &[u8]) -> (map: Option<TextureMap>)
        ensures
            map is Some <==> ({
                &&& width <= i32::MAX
                &&& height <= i32::MAX
                &&& rgba@.len() == 4 * width * height
            }),
            map matches Some(map) ==> ({
                &&& map.spec_width() == width
                &&& map.spec_height() == height
                &&& map@ == pixels_of(rgba@)
            }),
    {
        if width > 0x7fff_ffff || height > 0x7fff_ffff {
            return None;
        }
        assert(width * height <= 0x7fff_ffff * 0x7fff_ffff) by (nonlinear_arith)
            requires
                width <= 0x7fff_ffff,
                height <= 0x7fff_ffff,
        ;
        let count: u64 = (width as u64) * (height as u64);
        assert(4 * width * height == 4 * (width * height)) by (nonlinear_arith);
        if rgba.len() as u64 != 4 * count {
            return None;
        }
        let mut image: Vec<Rgb> = Vec::new();
        let mut i: usize = 0;
        while i < rgba.len()
            invariant
                rgba@.len() == 4 * count,
                i % 4 == 0,
                i <= rgba@.len(),
                image@ == pixels_of(rgba@).take(i as int / 4),
            decreases rgba@.len() - i,
        {
            image.push(Rgb { r: rgba[i], g: rgba[i + 1], b: rgba[i + 2] });
            assert(image@ =~= pixels_of(rgba@).take((i + 4) as int / 4));
            i += 4;
        }
        assert(image@ =~= pixels_of(rgba@));
        Some(TextureMap { image, width: width as i32, height: height as i32 })
    }

    /// The texture that `picture` shows, each pixel with its red, green and
    /// blue of eight bits. There is none where a side of the picture is
    /// longer than `i32::MAX`, or where four bytes for each pixel of a row,
    /// or of the picture, are more than `usize` can count.
    pub fn from_image(picture: &image::DynamicImage) -> (map: Option<TextureMap>)
        ensures
            map is Some <==> ({
                &&& image_sides(*picture).0 <= i32::MAX
                &&& image_sides(*picture).1 <= i32::MAX
                &&& 4 * image_sides(*picture).0 <= usize::MAX
                &&& 4 * image_sides(*picture).0 * image_sides(*picture).1 <= usize::MAX
            }),
            map matches Some(map) ==> ({
                &&& map.spec_width() == image_sides(*picture).0
                &&& map.spec_height() == image_sides(*picture).1
                &&& map@ == pixels_of(image_rgba(*picture))
            }),
    {
        let (width, height) = dimensions(picture);
        assert(width * height <= 0xffff_ffff * 0xffff_ffff) by (nonlinear_arith)
            requires
                width <= 0xffff_ffff,
                height <= 0xffff_ffff,
        ;
        assert(4 * width * height == 4 * (width * height)) by (nonlinear_arith);
        if width as u64 > (usize::MAX / 4) as u64 || (width as u64) * (height as u64) > (usize::MAX
            / 4) as u64 {
            return None;
        }
        let rgba = to_rgba8(picture);
        TextureMap::from_rgba(width, height, rgba.as_slice())
    }

    /// The colour at column `x` and row `y`, counted from the top left. A
    /// coordinate outside the texture takes the nearest column or row.
    pub fn colour_at(&self, x: i64, y: i64) -> (colour: Rgb)
        requires
            self.spec_width() > 0,
            self.spec_height() > 0,
        ensures
            colour == self@[sample_place(
                self.spec_width() as int,
                self.spec_height() as int,
                x as int,
                y as int,
            )],
    {
        proof {
            use_type_invariant(self);
            lemma_sample_place(
                self.spec_width() as int,
                self.spec_height() as int,
                x as int,
                y as int,
            );
        }
        let width: i64 = self.width as i64;
        let height: i64 = self.height as i64;
        let column: i64 = if x < 0 {
            0
        } else if x > width - 1 {
            width - 1
        } else {
            x
        };
        let row: i64 = if y < 0 {
            0
        } else if y > height - 1 {
            height - 1
        } else {
            y
        };
        assert(0 <= row * width <= (height - 1) * width) by (nonlinear_arith)
            requires
                0 <= row <= height - 1,
                width > 0,
        ;
        assert((height - 1) * width <= 0x7fff_ffff * 0x7fff_ffff) by (nonlinear_arith)
            requires
                0 < height <= 0x7fff_ffff,
                0 < width <= 0x7fff_ffff,
        ;
        let index: i64 = row * width + column;
        self.image[index as usize]
    }
}

} // verus!
