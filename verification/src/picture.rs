//! Pictures of the `image` crate, as far as this library reads and makes
//! them: a picture has two sides and, once it is brought to eight bits of
//! red, green, blue and alpha, four bytes to a pixel.
//!
//! Nothing in this file is proved: each item states what the `image` crate
//! does.

use vstd::prelude::*;

verus! {

/// `image::DynamicImage`: a decoded picture of any of the pixel formats that
/// the `image` crate knows. This library does not look inside one.
#[verifier::external_type_specification]
#[verifier::external_body]
pub struct ExDynamicImage(image::DynamicImage);

/// The width and the height of a picture, in pixels: what
/// `GenericImageView::dimensions` returns for it.
pub uninterp spec fn image_sides(picture: image::DynamicImage) -> (u32, u32);

/// The bytes of a picture brought to eight bits of red, green, blue and
/// alpha, four bytes to a pixel, row by row from the top: the buffer of
/// what `DynamicImage::to_rgba8` returns for it.
pub uninterp spec fn image_rgba(picture: image::DynamicImage) -> Seq<u8>;

/// `GenericImageView::dimensions` on a `DynamicImage`: the width and the
/// height of the picture.
#[verifier::external_body]
pub(crate) fn dimensions(picture: &image::DynamicImage) -> (sides: (u32, u32))
    ensures
        sides == image_sides(*picture),
{
    image::GenericImageView::dimensions(picture)
}

/// `DynamicImage::to_rgba8`, and `ImageBuffer::into_raw` on what it returns:
/// the bytes of a copy of the picture with four bytes to each pixel. The
/// copy is made in a buffer of four times the width times the height bytes.
/// `to_rgba8` counts them in `usize`, first four times the width, then that
/// times the height, and panics where one of the two is beyond `usize`.
#[verifier::external_body]
pub(crate) fn to_rgba8(picture: &image::DynamicImage) -> (bytes: Vec<u8>)
    requires
        4 * image_sides(*picture).0 <= usize::MAX,
        4 * image_sides(*picture).0 * image_sides(*picture).1 <= usize::MAX,
    ensures
        bytes@ == image_rgba(*picture),
        bytes@.len() == 4 * image_sides(*picture).0 * image_sides(*picture).1,
{
    picture.to_rgba8().into_raw()
}

/// `ImageBuffer::from_vec` for pixels of red, green, blue and alpha, put
/// into a `DynamicImage`: the picture of the given sides over `pixels`,
/// which there is where `pixels` has four bytes for each pixel, or more.
/// `from_vec` counts the bytes that it needs in `usize`, first four times
/// the width, then that times the height, and gives no picture where one of
/// the two is beyond `usize`. Brought to red, green, blue and alpha again,
/// such a picture gives the bytes that it was made of, without those that
/// it has no pixel for.
#[verifier::external_body]
pub(crate) fn from_vec(width: u32, height: u32, pixels: Vec<u8>) -> (picture: Option<image::DynamicImage>)
    ensures
        picture is Some <==> (4 * width <= usize::MAX && 4 * width * height <= pixels@.len()),
        picture matches Some(made) ==> image_sides(made).0 == width && image_sides(made).1 == height,
        picture matches Some(made) ==> image_rgba(made) == pixels@.take(4 * width * height),
{
    image::ImageBuffer::from_vec(width, height, pixels).map(image::DynamicImage::ImageRgba8)
}

} // verus!
