use vstd::prelude::*;
use image::ImageBuffer;
use image::RgbImage;
use image::Rgb as Pixel3;
use crate::color::Rgb;

verus! {

/// An RGB8 pixel buffer of the `image` crate, ready for encoding. Verus
/// sees it only through `raster_size` and `raster_pixels`.
#[verifier::external_body]
pub struct Raster {
    pub image: RgbImage,
}

/// The pixels of an RGB8 buffer, by `(x, y)` position, each as its three channels.
pub uninterp spec fn raster_pixels(img: Raster) -> Map<(u32, u32), Seq<u8>>;

/// The `(width, height)` an RGB8 buffer was made with.
pub uninterp spec fn raster_size(img: Raster) -> (u32, u32);

/// Every position of a `width` by `height` grid, each mapped to `f` of itself.
pub open spec fn grid_map(width: u32, height: u32, f: spec_fn((u32, u32)) -> Seq<u8>) -> Map<(u32, u32), Seq<u8>> {
    Map::new(|k: (u32, u32)| k.0 < width && k.1 < height, f)
}

/// Relies on `image::ImageBuffer::new`: a `width` by `height` buffer whose
/// samples are all zero; it panics when `3 * width`, or the sample count
/// `3 * width * height`, overflows `usize`.
#[verifier::external_body]
fn blank_raster(width: u32, height: u32) -> (img: Raster)
    requires
        3 * width <= usize::MAX,
        3 * width * height <= usize::MAX,
    ensures
        raster_size(img) == (width, height),
        raster_pixels(img) == grid_map(width, height, |k: (u32, u32)| seq![0u8, 0u8, 0u8]),
{
    Raster { image: ImageBuffer::new(width, height) }
}

/// Relies on `image::ImageBuffer::put_pixel`: the pixel at `(x, y)` becomes
/// `p` and no other changes; it panics outside the buffer's bounds.
#[verifier::external_body]
fn put_raster_pixel(img: &mut Raster, x: u32, y: u32, p: Pixel3<u8>)
    requires
        x < raster_size(*old(img)).0,
        y < raster_size(*old(img)).1,
    ensures
        raster_size(*final(img)) == raster_size(*old(img)),
        raster_pixels(*final(img)) == raster_pixels(*old(img)).insert((x, y), p.0@),
{
    img.image.put_pixel(x, y, p)
}

/// Channel `k` of a color: 0 is red, 1 green, 2 blue.
pub open spec fn channel(c: Rgb, k: int) -> int {
    if k == 0 {
        c.r as int
    } else if k == 1 {
        c.g as int
    } else {
        c.b as int
    }
}

/// Sum of channel `k` over a sequence of colors.
pub open spec fn channel_total(s: Seq<Rgb>, k: int) -> int
    decreases s.len(),
{
    if s.len() == 0 {
        0
    } else {
        channel_total(s.drop_last(), k) + channel(s.last(), k)
    }
}

/// The channel-wise mean of a non-empty sequence of colors, truncated.
pub open spec fn mean(s: Seq<Rgb>) -> Rgb {
    Rgb {
        r: (channel_total(s, 0) / s.len() as int) as u8,
        g: (channel_total(s, 1) / s.len() as int) as u8,
        b: (channel_total(s, 2) / s.len() as int) as u8,
    }
}

proof fn lemma_channel_total_bounds(s: Seq<Rgb>, k: int)
    ensures
        0 <= channel_total(s, k) <= 255 * s.len(),
    decreases s.len(),
{
    if s.len() > 0 {
        lemma_channel_total_bounds(s.drop_last(), k);
    }
}

proof fn lemma_mean_fits(total: int, n: int)
    requires
        0 < n,
        0 <= total <= 255 * n,
    ensures
        0 <= total / n <= 255,
{
    assert(total / n <= 255) by (nonlinear_arith)
        requires
            0 < n,
            0 <= total <= 255 * n,
    ;
    assert(0 <= total / n) by (nonlinear_arith)
        requires
            0 < n,
            0 <= total,
    ;
}

proof fn lemma_channel_total_uniform(s: Seq<Rgb>, c: Rgb, k: int)
    requires
        forall|i: int| 0 <= i < s.len() ==> s[i] == c,
    ensures
        channel_total(s, k) == s.len() * channel(c, k),
    decreases s.len(),
{
    if s.len() > 0 {
        lemma_channel_total_uniform(s.drop_last(), c, k);
        assert(s.last() == c);
        assert(channel_total(s, k) == (s.len() - 1) * channel(c, k) + channel(c, k));
        assert((s.len() - 1) * channel(c, k) + channel(c, k) == s.len() * channel(c, k))
            by (nonlinear_arith);
    }
}

proof fn lemma_multiple_div(n: int, v: int)
    requires
        0 < n,
    ensures
        (n * v) / n == v,
{
    assert((n * v) / n == v) by (nonlinear_arith)
        requires
            0 < n,
    ;
}

/// A pixel whose sub-samples all have one color gets exactly that color;
/// in particular a pixel whose every sub-ray misses is pure black.
pub proof fn uniform_samples_keep_color(s: Seq<Rgb>, c: Rgb)
    requires
        0 < s.len(),
        forall|i: int| 0 <= i < s.len() ==> s[i] == c,
    ensures
        mean(s) == c,
{
    lemma_channel_total_uniform(s, c, 0);
    lemma_channel_total_uniform(s, c, 1);
    lemma_channel_total_uniform(s, c, 2);
    lemma_multiple_div(s.len() as int, c.r as int);
    lemma_multiple_div(s.len() as int, c.g as int);
    lemma_multiple_div(s.len() as int, c.b as int);
}

/// The color of a supersampled pixel: the truncated channel-wise average of
/// its sub-sample colors.
pub fn average(samples: &Vec<Rgb>) -> (c: Rgb)
    requires
        0 < samples@.len(),
        samples@.len() * 255 <= u64::MAX,
    ensures
        c == mean(samples@),
{
    let mut r: u64 = 0;
    let mut g: u64 = 0;
    let mut b: u64 = 0;
    let mut i: usize = 0;
    while i < samples.len()
        invariant
            0 <= i <= samples@.len(),
            samples@.len() * 255 <= u64::MAX,
            r == channel_total(samples@.take(i as int), 0),
            g == channel_total(samples@.take(i as int), 1),
            b == channel_total(samples@.take(i as int), 2),
        decreases samples@.len() - i,
    {
        let ghost next = samples@.take(i + 1);
        proof {
            assert(next.drop_last() =~= samples@.take(i as int));
            lemma_channel_total_bounds(next, 0);
            lemma_channel_total_bounds(next, 1);
            lemma_channel_total_bounds(next, 2);
            assert(255 * next.len() <= u64::MAX);
        }
        let c = samples[i];
        r = r + c.r as u64;
        g = g + c.g as u64;
        b = b + c.b as u64;
        i += 1;
    }
    let n = samples.len() as u64;
    proof {
        assert(samples@.take(i as int) =~= samples@);
        lemma_channel_total_bounds(samples@, 0);
        lemma_channel_total_bounds(samples@, 1);
        lemma_channel_total_bounds(samples@, 2);
        lemma_mean_fits(r as int, n as int);
        lemma_mean_fits(g as int, n as int);
        lemma_mean_fits(b as int, n as int);
    }
    Rgb::new((r / n) as u8, (g / n) as u8, (b / n) as u8)
}

/// The pixels of a `width` by `height` raster whose pixel `(x, y)` has the
/// mean color of `samples[y * width + x]`.
pub open spec fn averaged_grid(width: u32, height: u32, samples: Seq<Vec<Rgb>>) -> Map<(u32, u32), Seq<u8>> {
    grid_map(width, height, |k: (u32, u32)| mean(samples[k.1 * width + k.0]@).channels())
}

/// The pixels of the averaged raster at columns below `x`, and in column
/// `x` at rows below `y`; zero elsewhere.
spec fn partial_grid(width: u32, height: u32, samples: Seq<Vec<Rgb>>, x: u32, y: u32) -> Map<(u32, u32), Seq<u8>> {
    grid_map(
        width,
        height,
        |k: (u32, u32)|
            if k.0 < x || (k.0 == x && k.1 < y) {
                mean(samples[k.1 * width + k.0]@).channels()
            } else {
                seq![0u8, 0u8, 0u8]
            },
    )
}

/// Builds the output raster from the traced sub-sample colors, given in
/// row-major order: pixel `(x, y)` gets the average of `samples[y * width + x]`.
pub fn compose(width: u32, height: u32, samples: &Vec<Vec<Rgb>>) -> (img: Raster)
    requires
        3 * width <= usize::MAX,
        3 * width * height <= usize::MAX,
        samples@.len() == width * height,
        forall|i: int|
            0 <= i < samples@.len() ==> 0 < (#[trigger] samples@[i])@.len() && samples@[i]@.len()
                * 255 <= u64::MAX,
    ensures
        raster_size(img) == (width, height),
        raster_pixels(img) == averaged_grid(width, height, samples@),
{
    let mut img = blank_raster(width, height);
    proof {
        assert(raster_pixels(img) =~= partial_grid(width, height, samples@, 0, 0));
    }
    let mut x: u32 = 0;
    while x < width
        invariant
            x <= width,
            3 * width <= usize::MAX,
            3 * width * height <= usize::MAX,
            samples@.len() == width * height,
            forall|i: int|
                0 <= i < samples@.len() ==> 0 < (#[trigger] samples@[i])@.len() && samples@[i]@.len()
                    * 255 <= u64::MAX,
            raster_size(img) == (width, height),
            raster_pixels(img) == partial_grid(width, height, samples@, x, 0),
        decreases width - x,
    {
        let mut y: u32 = 0;
        while y < height
            invariant
                x < width,
                y <= height,
                3 * width <= usize::MAX,
                3 * width * height <= usize::MAX,
                samples@.len() == width * height,
                forall|i: int|
                    0 <= i < samples@.len() ==> 0 < (#[trigger] samples@[i])@.len()
                        && samples@[i]@.len() * 255 <= u64::MAX,
                raster_size(img) == (width, height),
                raster_pixels(img) == partial_grid(width, height, samples@, x, y),
            decreases height - y,
        {
            proof {
                assert(y * width + x < width * height && width * height <= 3 * width * height)
                    by (nonlinear_arith)
                    requires
                        x < width,
                        y < height,
                ;
            }
            let idx = y as usize * width as usize + x as usize;
            let c = average(&samples[idx]);
            put_raster_pixel(&mut img, x, y, c.to_pixel());
            proof {
                assert(raster_pixels(img) =~= partial_grid(width, height, samples@, x, (y + 1) as u32));
            }
            y += 1;
        }
        proof {
            assert(raster_pixels(img) =~= partial_grid(width, height, samples@, (x + 1) as u32, 0));
        }
        x += 1;
    }
    proof {
        assert(raster_pixels(img) =~= averaged_grid(width, height, samples@));
    }
    img
}

} // verus!
