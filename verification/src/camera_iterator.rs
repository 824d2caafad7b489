//! The order in which the pixels of a band of image rows are visited: each
//! row from left to right, the rows from the top down.

use vstd::prelude::*;

verus! {

/// The pixels of row `y` of an image `width` wide, from left to right, each
/// as its column and its row.
pub open spec fn row_pixels(width: int, y: int) -> Seq<(usize, usize)> {
    Seq::new(width as nat, |x: int| (x as usize, y as usize))
}

/// The pixels of the rows from `start_y` up to, not including, `end_y`: row
/// after row from the top, each from left to right.
pub open spec fn band_pixels(width: int, start_y: int, end_y: int) -> Seq<(usize, usize)>
    decreases end_y - start_y,
{
    if start_y >= end_y {
        Seq::empty()
    } else {
        row_pixels(width, start_y) + band_pixels(width, start_y + 1, end_y)
    }
}

/// A band has one pixel for each column of each of its rows.
pub proof fn lemma_band_pixels_len(width: int, start_y: int, end_y: int)
    requires
        0 <= width,
        start_y <= end_y,
    ensures
        band_pixels(width, start_y, end_y).len() == (end_y - start_y) * width,
    decreases end_y - start_y,
{
    if start_y < end_y {
        lemma_band_pixels_len(width, start_y + 1, end_y);
        assert((end_y - start_y) * width == width + (end_y - (start_y + 1)) * width)
            by (nonlinear_arith);
    } else {
        assert((end_y - start_y) * width == 0) by (nonlinear_arith)
            requires
                end_y - start_y == 0,
        ;
    }
}

/// Two bands of which the second begins where the first ends make up the
/// band from the beginning of the first to the end of the second.
pub proof fn lemma_band_pixels_join(width: int, start_y: int, middle_y: int, end_y: int)
    requires
        start_y <= middle_y <= end_y,
    ensures
        band_pixels(width, start_y, middle_y) + band_pixels(width, middle_y, end_y) == band_pixels(
            width,
            start_y,
            end_y,
        ),
    decreases middle_y - start_y,
{
    if start_y < middle_y {
        lemma_band_pixels_join(width, start_y + 1, middle_y, end_y);
        assert(band_pixels(width, start_y, middle_y) + band_pixels(width, middle_y, end_y)
            =~= row_pixels(width, start_y) + (band_pixels(width, start_y + 1, middle_y)
            + band_pixels(width, middle_y, end_y)));
    } else {
        assert(band_pixels(width, start_y, middle_y) + band_pixels(width, middle_y, end_y)
            =~= band_pixels(width, start_y, end_y));
    }
}

/// A walk over the pixels of a band of rows of an image, which hands out
/// the column and row of one pixel at a time.
#[derive(Debug)]
pub struct CameraIterator {
    width: usize,
    x: usize,
    start_y: usize,
    end_y: usize,
}

impl View for CameraIterator {
    type V = Seq<(usize, usize)>;

    /// The pixels not yet handed out, in the order in which they will be.
    closed spec fn view(&self) -> Seq<(usize, usize)> {
        if self.start_y < self.end_y {
            row_pixels(self.width as int, self.start_y as int).skip(self.x as int) + band_pixels(
                self.width as int,
                self.start_y + 1,
                self.end_y as int,
            )
        } else {
            Seq::empty()
        }
    }
}

impl CameraIterator {
    #[verifier::type_invariant]
    spec fn well_formed(&self) -> bool {
        &&& self.start_y <= self.end_y
        &&& self.start_y < self.end_y ==> self.x < self.width
    }

    /// A walk over the rows from `start_y` up to, not including, `end_y` of
    /// an image `width` wide.
    pub fn new(width: usize, start_y: usize, end_y: usize) -> (pixels: CameraIterator)
        requires
            start_y <= end_y,
            start_y < end_y ==> width > 0,
        ensures
            pixels@ == band_pixels(width as int, start_y as int, end_y as int),
    {
        let pixels = CameraIterator { width, x: 0, start_y, end_y };
        assert(pixels@ =~= band_pixels(width as int, start_y as int, end_y as int));
        pixels
    }

    /// Hands out the next pixel, if one is left.
    pub fn next(&mut self) -> (pixel: Option<(usize, usize)>)
        ensures
            old(self)@.len() == 0 ==> pixel is None && final(self)@ == old(self)@,
            old(self)@.len() > 0 ==> pixel == Some(old(self)@[0])
                && final(self)@ == old(self)@.drop_first(),
    {
        proof {
            use_type_invariant(&*self);
        }
        if self.start_y == self.end_y {
            None
        } else {
            let pixel = (self.x, self.start_y);
            let ghost row = row_pixels(self.width as int, self.start_y as int);
            let ghost rest = band_pixels(self.width as int, self.start_y + 1, self.end_y as int);
            assert(old(self)@ == row.skip(self.x as int) + rest);
            assert(old(self)@[0] == pixel);
            if self.x + 1 == self.width {
                self.x = 0;
                self.start_y += 1;
                assert(self@ =~= rest);
                assert(old(self)@.drop_first() =~= rest);
            } else {
                self.x += 1;
                assert(self@ =~= old(self)@.drop_first());
            }
            Some(pixel)
        }
    }
}

} // verus!
