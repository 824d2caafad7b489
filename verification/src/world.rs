//! Cutting an image into bands of rows, one for each worker, and putting the
//! bytes that the workers hand back together again.

use crate::camera_iterator::{
    band_pixels, lemma_band_pixels_join, lemma_band_pixels_len, CameraIterator,
};
use crate::picture::{from_vec, image_rgba, image_sides};
use vstd::prelude::*;

verus! {

/// The number of rows in each band but the last, for an image of `height`
/// rows and `thread_count` workers: the rows are shared out evenly and what
/// is left over goes to further bands. A band has at least one row. With no
/// worker count to divide by, one band takes every row.
pub open spec fn band_step(height: int, thread_count: int) -> int {
    if thread_count <= 0 {
        if height >= 1 {
            height
        } else {
            1
        }
    } else if height / thread_count >= 1 {
        height / thread_count
    } else {
        1
    }
}

/// The row after the last of the band that begins at row `start_y`: `step`
/// rows further on, or the end of the image where that comes first.
pub open spec fn band_end(start_y: int, height: int, step: int) -> int {
    if start_y + step < height {
        start_y + step
    } else {
        height
    }
}

/// The bands of an image of `height` rows from row `start_y` on, `step` rows
/// to a band: each as its first row and the row after its last. The last
/// band ends with the image.
pub open spec fn bands_from(start_y: int, height: int, step: int) -> Seq<(usize, usize)>
    decreases height - start_y,
{
    if start_y >= height || step <= 0 {
        Seq::empty()
    } else {
        seq![(start_y as usize, band_end(start_y, height, step) as usize)] + bands_from(
            band_end(start_y, height, step),
            height,
            step,
        )
    }
}

/// The bands into which an image of `height` rows is cut for `thread_count`
/// workers, from the top down.
pub open spec fn bands(height: int, thread_count: int) -> Seq<(usize, usize)> {
    bands_from(0, height, band_step(height, thread_count))
}

/// The pixels of `bands`, band after band.
pub open spec fn bands_pixels(width: int, bands: Seq<(usize, usize)>) -> Seq<(usize, usize)>
    decreases bands.len(),
{
    if bands.len() == 0 {
        Seq::empty()
    } else {
        band_pixels(width, bands[0].0 as int, bands[0].1 as int) + bands_pixels(
            width,
            bands.drop_first(),
        )
    }
}

/// The bytes of `pixels` where `shade` gives the bytes of each pixel.
pub open spec fn shaded(
    pixels: Seq<(usize, usize)>,
    shade: spec_fn((usize, usize)) -> Seq<u8>,
) -> Seq<u8>
    decreases pixels.len(),
{
    if pixels.len() == 0 {
        Seq::empty()
    } else {
        shade(pixels[0]) + shaded(pixels.drop_first(), shade)
    }
}

/// The bytes that the workers hand back, put together in the order of the
/// bands, where each worker gives the bytes of the pixels of its band.
pub open spec fn assembled(
    width: int,
    bands: Seq<(usize, usize)>,
    shade: spec_fn((usize, usize)) -> Seq<u8>,
) -> Seq<u8>
    decreases bands.len(),
{
    if bands.len() == 0 {
        Seq::empty()
    } else {
        shaded(band_pixels(width, bands[0].0 as int, bands[0].1 as int), shade) + assembled(
            width,
            bands.drop_first(),
            shade,
        )
    }
}

/// The number of bands is the number of rows over the rows to a band,
/// rounded up.
pub proof fn lemma_bands_count(start_y: int, height: int, step: int)
    requires
        0 <= start_y,
        step >= 1,
    ensures
        bands_from(start_y, height, step).len() == if start_y >= height {
            0
        } else {
            (height - start_y + step - 1) / step
        },
    decreases height - start_y,
{
    if start_y < height {
        lemma_bands_count(band_end(start_y, height, step), height, step);
        let rows = height - start_y;
        if start_y + step >= height {
            assert((rows + step - 1) / step == 1) by (nonlinear_arith)
                requires
                    1 <= rows <= step,
            ;
        } else {
            assert((rows + step - 1) / step == 1 + (rows - step + step - 1) / step)
                by (nonlinear_arith)
                requires
                    step >= 1,
            ;
        }
    }
}

/// The bands follow one another from `start_y` to the end of the image: the
/// first begins at `start_y`, each begins where the one before it ends, and
/// the last ends with the image. Each has at least one row and at most
/// `step`, and each but the last has `step`.
pub proof fn lemma_bands_follow(start_y: int, height: int, step: int)
    requires
        0 <= start_y <= height <= usize::MAX,
        step >= 1,
    ensures
        start_y < height ==> bands_from(start_y, height, step).len() > 0 && bands_from(
            start_y,
            height,
            step,
        )[0].0 == start_y && bands_from(start_y, height, step).last().1 == height,
        forall|i: int|
            0 <= i < bands_from(start_y, height, step).len() ==> ({
                let band = #[trigger] bands_from(start_y, height, step)[i];
                &&& start_y <= band.0 < band.1 <= height
                &&& band.1 - band.0 <= step
                &&& i + 1 < bands_from(start_y, height, step).len() ==> band.1 - band.0 == step
                    && band.1 == bands_from(start_y, height, step)[i + 1].0
            }),
    decreases height - start_y,
{
    if start_y < height {
        let end_y = band_end(start_y, height, step);
        let all = bands_from(start_y, height, step);
        let rest = bands_from(end_y, height, step);
        lemma_bands_follow(end_y, height, step);
        assert(all.drop_first() =~= rest);
        assert forall|i: int| 0 <= i < all.len() implies {
            let band = #[trigger] all[i];
            &&& start_y <= band.0 < band.1 <= height
            &&& band.1 - band.0 <= step
            &&& i + 1 < all.len() ==> band.1 - band.0 == step && band.1 == all[i + 1].0
        } by {
            if i > 0 {
                assert(all[i] == rest[i - 1]);
                if i + 1 < all.len() {
                    assert(all[i + 1] == rest[i]);
                }
            } else if all.len() > 1 {
                assert(all[1] == rest[0]);
            }
        }
        if rest.len() > 0 {
            assert(all.last() == rest.last());
        }
    }
}

/// With as many workers as rows, or more, each row is a band of its own:
/// there are as many bands as rows, not as workers.
pub proof fn lemma_one_band_for_each_row(height: int, thread_count: int)
    requires
        0 <= height <= thread_count,
    ensures
        bands(height, thread_count).len() == height,
{
    if height > 0 {
        if height == thread_count {
            assert(height / thread_count == 1) by (nonlinear_arith)
                requires
                    height == thread_count,
                    height > 0,
            ;
        } else {
            assert(height / thread_count == 0) by (nonlinear_arith)
                requires
                    0 <= height < thread_count,
            ;
        }
        assert(band_step(height, thread_count) == 1);
        lemma_bands_count(0, height, 1);
    }
}

/// Where the rows can be shared out evenly, there are as many bands as
/// workers.
pub proof fn lemma_one_band_for_each_worker(height: int, thread_count: int)
    requires
        0 < thread_count <= height,
        height % thread_count == 0,
    ensures
        bands(height, thread_count).len() == thread_count,
{
    let step = height / thread_count;
    assert(step >= 1 && height == step * thread_count) by (nonlinear_arith)
        requires
            0 < thread_count <= height,
            height % thread_count == 0,
            step == height / thread_count,
    ;
    lemma_bands_count(0, height, step);
    assert((step * thread_count + step - 1) / step == thread_count) by (nonlinear_arith)
        requires
            step >= 1,
            thread_count > 0,
    ;
}

/// The bands follow one another without a gap from `start_y` to the last
/// row: their pixels, band after band, are the pixels of the rows from
/// `start_y` on.
pub proof fn lemma_bands_pixels(width: int, start_y: int, height: int, step: int)
    requires
        0 <= start_y <= height <= usize::MAX,
        step >= 1,
    ensures
        bands_pixels(width, bands_from(start_y, height, step)) == band_pixels(
            width,
            start_y,
            height,
        ),
    decreases height - start_y,
{
    if start_y < height {
        let end_y = band_end(start_y, height, step);
        let all = bands_from(start_y, height, step);
        assert(all.drop_first() =~= bands_from(end_y, height, step));
        lemma_bands_pixels(width, end_y, height, step);
        lemma_band_pixels_join(width, start_y, end_y, height);
    }
}

/// The bytes of two runs of pixels, one after the other, are the bytes of
/// the two runs as one.
pub proof fn lemma_shaded_join(
    first: Seq<(usize, usize)>,
    second: Seq<(usize, usize)>,
    shade: spec_fn((usize, usize)) -> Seq<u8>,
)
    ensures
        shaded(first, shade) + shaded(second, shade) == shaded(first + second, shade),
    decreases first.len(),
{
    if first.len() == 0 {
        assert(first + second =~= second);
        assert(shaded(first, shade) + shaded(second, shade) =~= shaded(second, shade));
    } else {
        lemma_shaded_join(first.drop_first(), second, shade);
        assert((first + second).drop_first() =~= first.drop_first() + second);
        assert(shade(first[0]) + (shaded(first.drop_first(), shade) + shaded(second, shade))
            =~= shaded(first, shade) + shaded(second, shade));
    }
}

/// What the workers hand back, put together, is the bytes of the pixels of
/// all bands in order.
pub proof fn lemma_assembled(
    width: int,
    bands: Seq<(usize, usize)>,
    shade: spec_fn((usize, usize)) -> Seq<u8>,
)
    ensures
        assembled(width, bands, shade) == shaded(bands_pixels(width, bands), shade),
    decreases bands.len(),
{
    if bands.len() > 0 {
        lemma_assembled(width, bands.drop_first(), shade);
        lemma_shaded_join(
            band_pixels(width, bands[0].0 as int, bands[0].1 as int),
            bands_pixels(width, bands.drop_first()),
            shade,
        );
    }
}

/// However many workers share the rows, the image that is put together
/// from their bands is the image that one worker makes of all rows: the
/// bytes of every pixel, row after row from the top, each row from left to
/// right.
pub proof fn lemma_image_whatever_thread_count(
    width: int,
    height: int,
    thread_count: int,
    shade: spec_fn((usize, usize)) -> Seq<u8>,
)
    requires
        0 <= height <= usize::MAX,
    ensures
        assembled(width, bands(height, thread_count), shade) == shaded(
            band_pixels(width, 0, height),
            shade,
        ),
{
    lemma_assembled(width, bands(height, thread_count), shade);
    lemma_bands_pixels(width, 0, height, band_step(height, thread_count));
}

/// Two numbers of workers give the same image, byte for byte.
pub proof fn lemma_same_image(
    width: int,
    height: int,
    thread_count: int,
    other_thread_count: int,
    shade: spec_fn((usize, usize)) -> Seq<u8>,
)
    requires
        0 <= height <= usize::MAX,
    ensures
        assembled(width, bands(height, thread_count), shade) == assembled(
            width,
            bands(height, other_thread_count),
            shade,
        ),
{
    lemma_image_whatever_thread_count(width, height, thread_count, shade);
    lemma_image_whatever_thread_count(width, height, other_thread_count, shade);
}

/// The number of rows in each band but the last.
pub fn step_for(height: usize, thread_count: usize) -> (step: usize)
    ensures
        step == band_step(height as int, thread_count as int),
        step >= 1,
{
    if thread_count == 0 {
        if height >= 1 {
            height
        } else {
            1
        }
    } else {
        let share: usize = height / thread_count;
        if share >= 1 {
            share
        } else {
            1
        }
    }
}

/// Cuts an image of `height` rows into bands for `thread_count` workers,
/// from the top down, each band as its first row and the row after its
/// last.
pub fn partition(height: usize, thread_count: usize) -> (parts: Vec<(usize, usize)>)
    ensures
        parts@ == bands(height as int, thread_count as int),
        forall|i: int| 0 <= i < parts@.len() ==> (#[trigger] parts@[i]).0 < parts@[i].1 <= height,
{
    let step: usize = step_for(height, thread_count);
    proof {
        lemma_bands_follow(0, height as int, step as int);
    }
    let mut parts: Vec<(usize, usize)> = Vec::new();
    let mut start_y: usize = 0;
    assert(parts@ + bands_from(0, height as int, step as int) =~= bands_from(
        0,
        height as int,
        step as int,
    ));
    while start_y < height
        invariant
            step >= 1,
            start_y <= height,
            parts@ + bands_from(start_y as int, height as int, step as int) == bands_from(
                0,
                height as int,
                step as int,
            ),
        decreases height - start_y,
    {
        let end_y: usize = if step < height - start_y {
            start_y + step
        } else {
            height
        };
        let ghost rest = bands_from(end_y as int, height as int, step as int);
        assert(parts@.push((start_y, end_y)) + rest =~= parts@ + bands_from(
            start_y as int,
            height as int,
            step as int,
        ));
        parts.push((start_y, end_y));
        start_y = end_y;
    }
    assert(parts@ + bands_from(start_y as int, height as int, step as int) =~= parts@);
    parts
}

/// The bytes of `parts`, one part after the other.
pub open spec fn joined(parts: Seq<Vec<u8>>) -> Seq<u8>
    decreases parts.len(),
{
    if parts.len() == 0 {
        Seq::empty()
    } else {
        parts[0]@ + joined(parts.drop_first())
    }
}

/// Where each worker hands back the bytes of the pixels of its band, what
/// the workers hand back, one part after the other, is the image put
/// together from the bands.
pub proof fn lemma_joined_bands(
    width: int,
    bands: Seq<(usize, usize)>,
    colour: spec_fn((usize, usize)) -> Seq<u8>,
    parts: Seq<Vec<u8>>,
)
    requires
        parts.len() == bands.len(),
        forall|i: int|
            0 <= i < bands.len() ==> (#[trigger] parts[i])@ == shaded(
                band_pixels(width, bands[i].0 as int, bands[i].1 as int),
                colour,
            ),
    ensures
        joined(parts) == assembled(width, bands, colour),
    decreases bands.len(),
{
    if bands.len() > 0 {
        let other_parts = parts.drop_first();
        let other_bands = bands.drop_first();
        assert forall|i: int| 0 <= i < other_bands.len() implies (#[trigger] other_parts[i])@
            == shaded(
            band_pixels(width, other_bands[i].0 as int, other_bands[i].1 as int),
            colour,
        ) by {
            assert(other_parts[i] == parts[i + 1]);
            assert(other_bands[i] == bands[i + 1]);
        }
        lemma_joined_bands(width, other_bands, colour, other_parts);
    }
}

/// However many workers share the rows: where each hands back the bytes of
/// the pixels of its band, the parts put together in the order of the bands
/// are the bytes of every pixel of the image, row after row from the top,
/// each row from left to right.
pub proof fn lemma_joined_whatever_thread_count(
    width: int,
    height: int,
    thread_count: int,
    colour: spec_fn((usize, usize)) -> Seq<u8>,
    parts: Seq<Vec<u8>>,
)
    requires
        0 <= height <= usize::MAX,
        parts.len() == bands(height, thread_count).len(),
        forall|i: int|
            0 <= i < parts.len() ==> (#[trigger] parts[i])@ == shaded(
                band_pixels(
                    width,
                    bands(height, thread_count)[i].0 as int,
                    bands(height, thread_count)[i].1 as int,
                ),
                colour,
            ),
    ensures
        joined(parts) == shaded(band_pixels(width, 0, height), colour),
{
    lemma_joined_bands(width, bands(height, thread_count), colour, parts);
    lemma_image_whatever_thread_count(width, height, thread_count, colour);
}

/// Puts the bytes that the workers hand back together, in the order in
/// which the workers were started.
pub fn assemble(parts: Vec<Vec<u8>>) -> (pixels: Vec<u8>)
    ensures
        pixels@ == joined(parts@),
{
    let mut pixels: Vec<u8> = Vec::new();
    let mut parts = parts;
    let ghost all = parts@;
    let mut i: usize = 0;
    assert(all.skip(0) =~= all);
    while i < parts.len()
        invariant
            i <= parts.len(),
            parts@.len() == all.len(),
            forall|j: int| i <= j < all.len() ==> parts@[j] == all[j],
            pixels@ + joined(all.skip(i as int)) == joined(all),
        decreases parts.len() - i,
    {
        let mut part: Vec<u8> = Vec::new();
        core::mem::swap(&mut parts[i], &mut part);
        proof {
            assert(all.skip(i as int)[0] == part);
            assert(all.skip(i as int).drop_first() =~= all.skip(i + 1));
            assert((pixels@ + part@) + joined(all.skip(i + 1)) =~= pixels@ + joined(
                all.skip(i as int),
            ));
        }
        pixels.append(&mut part);
        i += 1;
    }
    assert(pixels@ + joined(all.skip(i as int)) =~= pixels@);
    pixels
}

/// Where `colour` gives four bytes for every pixel, the bytes of some
/// pixels are four times as many as the pixels.
pub proof fn lemma_shaded_len(
    pixels: Seq<(usize, usize)>,
    colour: spec_fn((usize, usize)) -> Seq<u8>,
)
    requires
        forall|pixel: (usize, usize)| (#[trigger] colour(pixel)).len() == 4,
    ensures
        shaded(pixels, colour).len() == 4 * pixels.len(),
    decreases pixels.len(),
{
    if pixels.len() > 0 {
        lemma_shaded_len(pixels.drop_first(), colour);
    }
}

/// Where `colour` gives four bytes for every pixel, the bytes of an image
/// are four times its width times its height.
pub proof fn lemma_image_len(
    width: int,
    height: int,
    colour: spec_fn((usize, usize)) -> Seq<u8>,
)
    requires
        0 <= width,
        0 <= height,
        forall|pixel: (usize, usize)| (#[trigger] colour(pixel)).len() == 4,
    ensures
        shaded(band_pixels(width, 0, height), colour).len() == 4 * width * height,
{
    lemma_shaded_len(band_pixels(width, 0, height), colour);
    lemma_band_pixels_len(width, 0, height);
    assert(4 * (height * width) == 4 * width * height) by (nonlinear_arith);
}

/// The picture `width` wide and `height` high that the workers' parts make,
/// put together in the order in which the workers were started. There is
/// one where the parts hold four bytes for each pixel, or more, no side is
/// longer than `u32::MAX`, and four bytes for each pixel of a row are no
/// more than `usize` can count.
pub fn frame(
    width: usize,
    height: usize,
    parts: Vec<Vec<u8>>,
) -> (picture: Option<image::DynamicImage>)
    ensures
        picture is Some <==> ({
            &&& width <= u32::MAX
            &&& height <= u32::MAX
            &&& 4 * width <= usize::MAX
            &&& 4 * width * height <= joined(parts@).len()
        }),
        picture matches Some(made) ==> ({
            &&& image_sides(made).0 == width
            &&& image_sides(made).1 == height
            &&& image_rgba(made) == joined(parts@).take(4 * width * height)
        }),
{
    let pixels = assemble(parts);
    if width > 0xffff_ffff || height > 0xffff_ffff {
        return None;
    }
    from_vec(width as u32, height as u32, pixels)
}

/// Whether the four bytes of `bytes` that stand for pixel `k` of `pixels`
/// are bytes that `shade` may give for that pixel.
pub open spec fn pixel_shaded_by<F: Fn(usize, usize) -> [u8; 4]>(
    bytes: Seq<u8>,
    pixels: Seq<(usize, usize)>,
    shade: F,
    k: int,
) -> bool {
    exists|quad: [u8; 4]| #[trigger]
        call_ensures(shade, pixels[k], quad) && quad@ == bytes.subrange(4 * k, 4 * k + 4)
}

/// Whether `bytes` holds, four bytes to a pixel and in the order of
/// `pixels`, bytes that `shade` may give for each pixel.
pub open spec fn shaded_by<F: Fn(usize, usize) -> [u8; 4]>(
    bytes: Seq<u8>,
    pixels: Seq<(usize, usize)>,
    shade: F,
) -> bool {
    &&& bytes.len() == 4 * pixels.len()
    &&& forall|k: int| 0 <= k < pixels.len() ==> #[trigger] pixel_shaded_by(bytes, pixels, shade, k)
}

/// Where `shade` gives for each pixel the bytes that `colour` names and no
/// others, bytes that are shaded by it are the bytes of the pixels under
/// `colour`.
pub proof fn lemma_shaded_by_function<F: Fn(usize, usize) -> [u8; 4]>(
    bytes: Seq<u8>,
    pixels: Seq<(usize, usize)>,
    shade: F,
    colour: spec_fn((usize, usize)) -> Seq<u8>,
)
    requires
        shaded_by(bytes, pixels, shade),
        forall|pixel: (usize, usize), quad: [u8; 4]| #[trigger]
            call_ensures(shade, pixel, quad) ==> quad@ == colour(pixel),
    ensures
        bytes == shaded(pixels, colour),
    decreases pixels.len(),
{
    if pixels.len() == 0 {
        assert(bytes =~= Seq::<u8>::empty());
    } else {
        let rest = bytes.skip(4);
        let others = pixels.drop_first();
        assert forall|k: int| 0 <= k < others.len() implies #[trigger] pixel_shaded_by(
            rest,
            others,
            shade,
            k,
        ) by {
            assert(pixel_shaded_by(bytes, pixels, shade, k + 1));
            assert(others[k] == pixels[k + 1]);
            assert(rest.subrange(4 * k, 4 * k + 4) =~= bytes.subrange(
                4 * (k + 1),
                4 * (k + 1) + 4,
            ));
        }
        lemma_shaded_by_function(rest, others, shade, colour);
        assert(pixel_shaded_by(bytes, pixels, shade, 0));
        assert(bytes =~= bytes.subrange(0, 4) + rest);
    }
}

/// The work of one worker: walks the pixels of a band and gathers the four
/// bytes that `shade` gives for each, in the order of the walk.
pub fn render_band<F: Fn(usize, usize) -> [u8; 4]>(
    camera_iter: CameraIterator,
    shade: F,
) -> (pixels: Vec<u8>)
    requires
        forall|x: usize, y: usize| call_requires(shade, (x, y)),
    ensures
        shaded_by(pixels@, camera_iter@, shade),
{
    let mut camera_iter = camera_iter;
    let mut pixels: Vec<u8> = Vec::new();
    let ghost all = camera_iter@;
    let ghost mut done: int = 0;
    assert(all.skip(0) =~= all);
    assert(all.take(0) =~= Seq::<(usize, usize)>::empty());
    loop
        invariant
            0 <= done <= all.len(),
            camera_iter@ == all.skip(done),
            shaded_by(pixels@, all.take(done), shade),
            forall|x: usize, y: usize| call_requires(shade, (x, y)),
        ensures
            shaded_by(pixels@, all, shade),
        decreases camera_iter@.len(),
    {
        match camera_iter.next() {
            Some((x, y)) => {
                let quad: [u8; 4] = shade(x, y);
                let ghost before = pixels@;
                pixels.push(quad[0]);
                pixels.push(quad[1]);
                pixels.push(quad[2]);
                pixels.push(quad[3]);
                proof {
                    let seen = all.take(done + 1);
                    assert(seen[done] == (x, y));
                    assert(pixels@.subrange(4 * done, 4 * done + 4) =~= quad@);
                    assert forall|k: int| 0 <= k < seen.len() implies #[trigger] pixel_shaded_by(
                        pixels@,
                        seen,
                        shade,
                        k,
                    ) by {
                        if k < done {
                            assert(pixel_shaded_by(before, all.take(done), shade, k));
                            assert(all.take(done)[k] == seen[k]);
                            assert(pixels@.subrange(4 * k, 4 * k + 4) =~= before.subrange(
                                4 * k,
                                4 * k + 4,
                            ));
                        } else {
                            assert(call_ensures(shade, seen[k], quad));
                        }
                    }
                    assert(all.skip(done).drop_first() =~= all.skip(done + 1));
                    done = done + 1;
                }
            },
            None => {
                assert(all.take(done) =~= all);
                break;
            },
        }
    }
    pixels
}

} // verus!
