//! The loops of the renderer: the samples of a pixel, the pixels of a
//! scanline, and the finished scanlines on their way into the image.
//!
//! What a sample is, how colours add up and how a colour becomes a pixel is the
//! caller's business; it hands these over as closures. `C` and `T` are its
//! types of colours.

use vstd::arithmetic::div_mod::{
    lemma_fundamental_div_mod, lemma_mod_pos_bound, lemma_multiply_divide_lt,
};
use vstd::prelude::*;
use crate::ppm_image::{Pixel, PpmImage};
use crate::scanline::{
    assemble, buffer_offset, is_complete_frame, is_full_frame, is_image_of,
    lemma_every_scanline_arrived, Line,
};

verus! {

/// The number by which a pixel coordinate is divided to give a viewport
/// coordinate: one less than the number of pixels across or up, so that the
/// last pixel lies at the far edge, and one where there is a single pixel or
/// none, which leaves nothing to divide by zero.
pub fn viewport_span(pixels: usize) -> (span: usize)
    ensures
        span == (if pixels <= 1 {
            1
        } else {
            pixels - 1
        }),
        span >= 1,
{
    if pixels <= 1 {
        1
    } else {
        pixels - 1
    }
}

/// Whether `sums` holds the sums of one pixel as they grow: `black` first, then
/// after each sample what `add_sample` made of the sum before it.
pub open spec fn is_accumulation<C, F: FnMut(C) -> C>(
    add_sample: F,
    black: C,
    samples_per_pixel: usize,
    sums: Seq<C>,
) -> bool {
    &&& sums.len() == samples_per_pixel + 1
    &&& sums[0] == black
    &&& forall|k: int|
        0 <= k < samples_per_pixel ==> call_ensures(add_sample, (#[trigger] sums[k],), sums[k + 1])
}

/// Sums the samples of one pixel. `add_sample` draws one sample and adds it to
/// the sum it is given; starting from `black`, it is applied
/// `samples_per_pixel` times, each time to the sum so far.
pub fn calculate_single_pixel<C, F: FnMut(C) -> C>(
    samples_per_pixel: usize,
    black: C,
    add_sample: F,
) -> (sum: C)
    requires
        forall|c: C| call_requires(add_sample, (c,)),
    ensures
        exists|sums: Seq<C>|
            #![trigger is_accumulation(add_sample, black, samples_per_pixel, sums)]
            is_accumulation(add_sample, black, samples_per_pixel, sums) && sum == sums.last(),
        samples_per_pixel == 0 ==> sum == black,
{
    let mut sampler = add_sample;
    let mut sum = black;
    let ghost mut sums: Seq<C> = seq![black];
    let mut drawn: usize = 0;
    while drawn < samples_per_pixel
        invariant
            sampler == add_sample,
            forall|c: C| call_requires(add_sample, (c,)),
            drawn <= samples_per_pixel,
            sums.len() == drawn + 1,
            sums[0] == black,
            forall|k: int|
                0 <= k < drawn ==> call_ensures(add_sample, (#[trigger] sums[k],), sums[k + 1]),
            sum == sums.last(),
        decreases samples_per_pixel - drawn,
    {
        let ghost before = sums;
        sum = sampler(sum);
        proof {
            sums = sums.push(sum);
            assert forall|k: int| 0 <= k < drawn + 1 implies call_ensures(
                add_sample,
                (#[trigger] sums[k],),
                sums[k + 1],
            ) by {
                if k < drawn {
                    assert(sums[k] == before[k]);
                    assert(sums[k + 1] == before[k + 1]);
                }
            }
        }
        drawn = drawn + 1;
    }
    proof {
        assert(is_accumulation(add_sample, black, samples_per_pixel, sums));
    }
    sum
}

/// Fills one scanline: the line with index `line_idx` of an image `width`
/// pixels wide, with `pixel` asked for each column from left to right.
pub fn calculate_single_image_line<T, F: FnMut(usize) -> T>(
    line_idx: usize,
    width: usize,
    pixel: F,
) -> (line: Line<T>)
    requires
        forall|i: usize| i < width ==> call_requires(pixel, (i,)),
    ensures
        line.0 == line_idx,
        line.1@.len() == width,
        forall|i: int| 0 <= i < width ==> call_ensures(pixel, (i as usize,), #[trigger] line.1@[i]),
{
    let mut shade = pixel;
    let mut res: Vec<T> = Vec::new();
    let mut i: usize = 0;
    while i < width
        invariant
            shade == pixel,
            forall|i: usize| i < width ==> call_requires(pixel, (i,)),
            i <= width,
            res@.len() == i,
            forall|k: int| 0 <= k < i ==> call_ensures(pixel, (k as usize,), #[trigger] res@[k]),
        decreases width - i,
    {
        let value = shade(i);
        res.push(value);
        i = i + 1;
    }
    (line_idx, res)
}

/// Whether `lines` holds every scanline of an image of the given size exactly
/// once.
pub open spec fn is_frame_of<T>(lines: Seq<Line<T>>, width: nat, height: nat) -> bool {
    lines.len() == height && is_full_frame(lines, width)
}

/// Whether `pixels` is the buffer of an image of the given size in which the
/// pixel at column `i` of the scanline with index `j`, counted from the
/// bottom, is what `tone` has made of the value that `lines` holds there.
pub open spec fn is_toned_image<T, F: FnMut(T) -> Pixel>(
    pixels: Seq<Pixel>,
    lines: Seq<Line<T>>,
    width: nat,
    height: nat,
    tone: F,
) -> bool {
    &&& pixels.len() == width * height
    &&& forall|p: int, i: int|
        0 <= p < lines.len() && 0 <= i < width ==> {
            let at = #[trigger] buffer_offset(height, width, lines[p].0, i);
            &&& 0 <= at < pixels.len()
            &&& call_ensures(tone, (lines[p].1@[i],), pixels[at])
        }
}

/// Puts the finished scanlines of a render into the image, in whatever order
/// the workers have delivered them: the pixel at column `i` of the scanline
/// with index `j`, counted from the bottom, becomes what `tone` makes of the
/// value that the scanline holds there.
///
/// Nothing is stored, and `false` is returned, unless every scanline of the
/// image has been delivered exactly once and in full: an image with a row
/// missing is of no use.
pub fn write_lines<T, F: FnMut(T) -> Pixel>(
    target: &mut PpmImage,
    lines: Vec<Line<T>>,
    tone: F,
) -> (stored: bool)
    requires
        forall|value: T| call_requires(tone, (value,)),
    ensures
        stored == is_frame_of(lines@, old(target)@.width, old(target)@.height),
        !stored ==> *final(target) == *old(target),
        final(target)@.width == old(target)@.width,
        final(target)@.height == old(target)@.height,
        final(target)@.image_type == old(target)@.image_type,
        stored ==> is_toned_image(
            final(target)@.pixels,
            lines@,
            old(target)@.width,
            old(target)@.height,
            tone,
        ),
{
    let width = target.width();
    let height = target.height();
    if lines.len() != height || !is_complete_frame(&lines, width) {
        return false;
    }
    // one pixel for each column of each row
    let room = target.pixels().len();
    let values = assemble(lines);
    assert(is_image_of(values@, lines@, width as nat));
    assert(values@.len() == room);
    target.write_colors(values, tone);
    proof {
        assert forall|p: int, i: int| 0 <= p < lines@.len() && 0 <= i < width implies {
            let at = #[trigger] buffer_offset(height as nat, width as nat, lines@[p].0, i);
            &&& 0 <= at < target@.pixels.len()
            &&& call_ensures(tone, (lines@[p].1@[i],), target@.pixels[at])
        } by {
            let at = buffer_offset(height as nat, width as nat, lines@[p].0, i);
            assert(values@[at] == lines@[p].1@[i]);
        }
    }
    true
}

/// The image does not depend on the run. Take two renders of an image of one
/// size, in each of which every scanline has arrived exactly once, in whatever
/// order, and let each scanline hold the same values in both. If the
/// conversion of a value to a pixel gives one answer for one value, the two
/// images have the same pixels, and so the same file.
pub proof fn lemma_same_lines_same_image<T, F: FnMut(T) -> Pixel>(
    first: Seq<Line<T>>,
    first_pixels: Seq<Pixel>,
    second: Seq<Line<T>>,
    second_pixels: Seq<Pixel>,
    width: nat,
    height: nat,
    tone: F,
)
    requires
        is_frame_of(first, width, height),
        is_frame_of(second, width, height),
        forall|p: int, q: int|
            0 <= p < first.len() && 0 <= q < second.len() && (#[trigger] first[p]).0
                == (#[trigger] second[q]).0 ==> first[p].1@ == second[q].1@,
        is_toned_image(first_pixels, first, width, height, tone),
        is_toned_image(second_pixels, second, width, height, tone),
        forall|value: T, one: Pixel, other: Pixel|
            call_ensures(tone, (value,), one) && call_ensures(tone, (value,), other) ==> one
                == other,
    ensures
        first_pixels == second_pixels,
{
    assert forall|at: int| 0 <= at < first_pixels.len() implies first_pixels[at]
        == second_pixels[at] by {
        let w = width as int;
        let h = height as int;
        assert(w != 0) by (nonlinear_arith)
            requires
                0 <= at < w * h,
        ;
        // the row from the top and the column of this offset
        let k = at / w;
        let i = at % w;
        lemma_fundamental_div_mod(at, w);
        lemma_mod_pos_bound(at, w);
        lemma_multiply_divide_lt(at, w, h);
        assert(0 <= k) by (nonlinear_arith)
            requires
                at == w * k + i,
                0 <= at,
                0 <= i < w,
        ;
        assert(w * k == k * w) by (nonlinear_arith);
        lemma_every_scanline_arrived(first, width, h - 1 - k);
        lemma_every_scanline_arrived(second, width, h - 1 - k);
        let p = choose|p: int| 0 <= p < first.len() && (#[trigger] first[p]).0 == h - 1 - k;
        let q = choose|q: int| 0 <= q < second.len() && (#[trigger] second[q]).0 == h - 1 - k;
        assert(buffer_offset(height, width, first[p].0, i) == at);
        assert(buffer_offset(height, width, second[q].0, i) == at);
        assert(first[p].1@[i] == second[q].1@[i]);
    }
    assert(first_pixels =~= second_pixels);
}

} // verus!
