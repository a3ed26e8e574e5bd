//! Strategies that reduce a grayscale raster to black and white.
use vstd::prelude::*;

use crate::arith::{lemma_row_major_bound, lemma_row_major_later};
use crate::cli::DitheringOption;
use crate::raster::{GrayRaster, GrayView};

verus! {

/// Samples above this are white where no matrix decides.
pub const THRESHOLD: u8 = 96;

/// 255 where `v` exceeds `threshold`, else 0.
pub open spec fn binarize(v: u8, threshold: u8) -> u8 {
    if v > threshold {
        255
    } else {
        0
    }
}

/// A way to reduce a grayscale raster, in place, to black (0) and white (255).
pub trait Ditherer {
    /// The samples that dithering leaves in a raster of `width` by `height`
    /// holding `pixels`.
    spec fn dithered(&self, width: nat, height: nat, pixels: Seq<u8>) -> Seq<u8>;

    fn dither(&self, buffer: &mut GrayRaster)
        requires
            old(buffer)@.wf(),
        ensures
            final(buffer)@.wf(),
            final(buffer)@.width == old(buffer)@.width,
            final(buffer)@.height == old(buffer)@.height,
            final(buffer)@.pixels == self.dithered(
                old(buffer)@.width,
                old(buffer)@.height,
                old(buffer)@.pixels,
            ),
            final(buffer)@.is_binary(),
    ;
}

/// No dithering: each sample against [`THRESHOLD`].
pub struct Threshold;

impl Ditherer for Threshold {
    open spec fn dithered(&self, width: nat, height: nat, pixels: Seq<u8>) -> Seq<u8> {
        Seq::new(pixels.len(), |i: int| binarize(pixels[i], THRESHOLD))
    }

    fn dither(&self, buffer: &mut GrayRaster) {
        let n = buffer.pixels().len();
        let ghost orig = buffer@;
        let mut i: usize = 0;
        while i < n
            invariant
                i <= n,
                n == orig.pixels.len(),
                buffer@.width == orig.width,
                buffer@.height == orig.height,
                buffer@.pixels.len() == n,
                forall|j: int| 0 <= j < i ==> buffer@.pixels[j] == binarize(orig.pixels[j], THRESHOLD),
                forall|j: int| i <= j < n ==> buffer@.pixels[j] == orig.pixels[j],
            decreases n - i,
        {
            let v = buffer.pixel_at(i);
            if v > THRESHOLD {
                buffer.set_pixel_at(i, 255);
            } else {
                buffer.set_pixel_at(i, 0);
            }
            i += 1;
        }
        assert(buffer@.pixels =~= self.dithered(orig.width, orig.height, orig.pixels));
    }
}

/// The threshold matrix of [`Bayer4x4`], indexed by row, then column.
pub const BAYER4X4_MATRIX: [[u8; 4]; 4] = [
    [0, 128, 32, 160],
    [192, 64, 224, 96],
    [48, 176, 16, 144],
    [240, 112, 208, 80],
];

/// The threshold matrix of [`Bayer2x2`], indexed by row, then column.
pub const BAYER2X2_MATRIX: [[u8; 2]; 2] = [[0, 128], [192, 64]];

/// The threshold that [`Bayer4x4`] holds the sample at `(x, y)` against.
pub open spec fn bayer4x4_threshold(x: int, y: int) -> u8 {
    BAYER4X4_MATRIX@[y % 4]@[x % 4]
}

/// The threshold that [`Bayer2x2`] holds the sample at `(x, y)` against.
pub open spec fn bayer2x2_threshold(x: int, y: int) -> u8 {
    BAYER2X2_MATRIX@[y % 2]@[x % 2]
}

/// A raster of `w * h` samples has at least one column when it has any sample.
proof fn lemma_nonempty_width(w: int, h: int, i: int)
    requires
        0 <= w,
        0 <= h,
        0 <= i < w * h,
    ensures
        w > 0,
{
    if w == 0 {
        assert(w * h == 0);
    }
}

/// Ordered dithering with the 4 by 4 Bayer matrix.
pub struct Bayer4x4;

impl Ditherer for Bayer4x4 {
    open spec fn dithered(&self, width: nat, height: nat, pixels: Seq<u8>) -> Seq<u8> {
        Seq::new(
            pixels.len(),
            |i: int| binarize(pixels[i], bayer4x4_threshold(i % width as int, i / width as int)),
        )
    }

    fn dither(&self, buffer: &mut GrayRaster) {
        let n = buffer.pixels().len();
        let w = buffer.width() as usize;
        let ghost orig = buffer@;
        let mut i: usize = 0;
        while i < n
            invariant
                i <= n,
                n == orig.pixels.len(),
                orig.wf(),
                w == orig.width,
                buffer@.width == orig.width,
                buffer@.height == orig.height,
                buffer@.pixels.len() == n,
                forall|j: int|
                    0 <= j < i ==> buffer@.pixels[j] == binarize(
                        orig.pixels[j],
                        bayer4x4_threshold(j % w as int, j / w as int),
                    ),
                forall|j: int| i <= j < n ==> buffer@.pixels[j] == orig.pixels[j],
            decreases n - i,
        {
            proof {
                lemma_nonempty_width(w as int, orig.height as int, i as int);
            }
            let x = i % w;
            let y = i / w;
            let v = buffer.pixel_at(i);
            if v > BAYER4X4_MATRIX[y % 4][x % 4] {
                buffer.set_pixel_at(i, 255);
            } else {
                buffer.set_pixel_at(i, 0);
            }
            i += 1;
        }
        assert(buffer@.pixels =~= self.dithered(orig.width, orig.height, orig.pixels));
    }
}

/// Ordered dithering with the 2 by 2 Bayer matrix.
pub struct Bayer2x2;

impl Ditherer for Bayer2x2 {
    open spec fn dithered(&self, width: nat, height: nat, pixels: Seq<u8>) -> Seq<u8> {
        Seq::new(
            pixels.len(),
            |i: int| binarize(pixels[i], bayer2x2_threshold(i % width as int, i / width as int)),
        )
    }

    fn dither(&self, buffer: &mut GrayRaster) {
        let n = buffer.pixels().len();
        let w = buffer.width() as usize;
        let ghost orig = buffer@;
        let mut i: usize = 0;
        while i < n
            invariant
                i <= n,
                n == orig.pixels.len(),
                orig.wf(),
                w == orig.width,
                buffer@.width == orig.width,
                buffer@.height == orig.height,
                buffer@.pixels.len() == n,
                forall|j: int|
                    0 <= j < i ==> buffer@.pixels[j] == binarize(
                        orig.pixels[j],
                        bayer2x2_threshold(j % w as int, j / w as int),
                    ),
                forall|j: int| i <= j < n ==> buffer@.pixels[j] == orig.pixels[j],
            decreases n - i,
        {
            proof {
                lemma_nonempty_width(w as int, orig.height as int, i as int);
            }
            let x = i % w;
            let y = i / w;
            let v = buffer.pixel_at(i);
            if v > BAYER2X2_MATRIX[y % 2][x % 2] {
                buffer.set_pixel_at(i, 255);
            } else {
                buffer.set_pixel_at(i, 0);
            }
            i += 1;
        }
        assert(buffer@.pixels =~= self.dithered(orig.width, orig.height, orig.pixels));
    }
}

/// Where the Sierra two-row filter spreads a sample's error: the column
/// offset, the row offset and the weight, in 32nds, of each neighbour.
pub const SIERRA2ROW_SPREAD: [(i64, i64, i32); 10] = [
    (1, 0, 5),
    (2, 0, 3),
    (-2, 1, 2),
    (-1, 1, 4),
    (0, 1, 5),
    (1, 1, 4),
    (2, 1, 2),
    (-1, 2, 2),
    (0, 2, 3),
    (1, 2, 2),
];

/// The error spread from a sample `v`: how far it lies from the black or
/// white it becomes, shifted right by five bits (divided by 32, rounding down).
pub open spec fn diffusion_error(v: u8) -> int {
    (if v > THRESHOLD {
        v - 255
    } else {
        v as int
    }) / 32
}

/// `v` brought into the range of a sample.
pub open spec fn clamp_sample(v: int) -> u8 {
    if v < 0 {
        0
    } else if v > 255 {
        255
    } else {
        v as u8
    }
}

/// `pixels`, of a raster `width` by `height`, with `err * weight` added to
/// the sample at `(x, y)` and clamped; unchanged where `(x, y)` lies outside.
pub open spec fn spread(
    pixels: Seq<u8>,
    width: int,
    height: int,
    x: int,
    y: int,
    err: int,
    weight: int,
) -> Seq<u8> {
    if 0 <= x < width && 0 <= y < height {
        let i = y * width + x;
        pixels.update(i, clamp_sample(pixels[i] + err * weight))
    } else {
        pixels
    }
}

/// `pixels` after the error `err` of the sample at `(x, y)` went to the
/// first `count` neighbours of [`SIERRA2ROW_SPREAD`].
pub open spec fn spread_to_neighbours(
    pixels: Seq<u8>,
    width: int,
    height: int,
    x: int,
    y: int,
    err: int,
    count: nat,
) -> Seq<u8>
    decreases count,
{
    if count == 0 {
        pixels
    } else {
        let (dx, dy, weight) = SIERRA2ROW_SPREAD@[count - 1];
        spread(
            spread_to_neighbours(pixels, width, height, x, y, err, (count - 1) as nat),
            width,
            height,
            x + dx,
            y + dy,
            err,
            weight as int,
        )
    }
}

/// One step of the Sierra two-row filter, at sample `k` in row-major order:
/// the sample becomes black or white and its error goes to its neighbours.
pub open spec fn sierra_step(pixels: Seq<u8>, width: int, height: int, k: int) -> Seq<u8> {
    let v = pixels[k];
    spread_to_neighbours(
        pixels.update(k, binarize(v, THRESHOLD)),
        width,
        height,
        k % width,
        k / width,
        diffusion_error(v),
        10,
    )
}

/// `pixels` after the first `k` steps of the Sierra two-row filter.
pub open spec fn sierra_upto(pixels: Seq<u8>, width: int, height: int, k: nat) -> Seq<u8>
    decreases k,
{
    if k == 0 {
        pixels
    } else {
        sierra_step(sierra_upto(pixels, width, height, (k - 1) as nat), width, height, k - 1)
    }
}

/// Spreading error to the neighbours of sample `k` leaves the samples up to
/// `k` as they were.
proof fn lemma_spread_keeps_prefix(
    pixels: Seq<u8>,
    width: int,
    height: int,
    k: int,
    err: int,
    count: nat,
)
    requires
        width > 0,
        0 <= k,
        pixels.len() == width * height,
        count <= 10,
    ensures
        spread_to_neighbours(pixels, width, height, k % width, k / width, err, count).len()
            == pixels.len(),
        forall|j: int|
            0 <= j <= k ==> #[trigger] spread_to_neighbours(
                pixels,
                width,
                height,
                k % width,
                k / width,
                err,
                count,
            )[j] == pixels[j],
    decreases count,
{
    if count > 0 {
        lemma_spread_keeps_prefix(pixels, width, height, k, err, (count - 1) as nat);
        let x = k % width;
        let y = k / width;
        let prev = spread_to_neighbours(pixels, width, height, x, y, err, (count - 1) as nat);
        let (dx, dy, weight) = SIERRA2ROW_SPREAD@[count - 1];
        let nx = x + dx;
        let ny = y + dy;
        assert(spread_to_neighbours(pixels, width, height, x, y, err, count) == spread(
            prev,
            width,
            height,
            nx,
            ny,
            err,
            weight as int,
        ));
        assert(k == y * width + x) by (nonlinear_arith)
            requires
                width > 0,
                x == k % width,
                y == k / width,
        ;
        assert(dy > 0 || dx > 0);
        if 0 <= nx < width && 0 <= ny < height {
            if dy > 0 {
                lemma_row_major_later(y, x, ny, nx, width);
            }
            lemma_row_major_bound(ny, nx, width, height);
            assert(k < ny * width + nx);
            assert(ny * width + nx < pixels.len());
        }
    }
}

/// Index `k` of a raster `width` by `height` lies in one of its rows.
proof fn lemma_row_of_index(k: int, width: int, height: int)
    requires
        width > 0,
        0 <= k < width * height,
    ensures
        0 <= k % width < width,
        0 <= k / width < height,
{
    assert(0 <= k / width < height) by (nonlinear_arith)
        requires
            width > 0,
            0 <= k < width * height,
    ;
}

/// A step of the filter at sample `k` makes it black or white and leaves the
/// samples before it as they were.
proof fn lemma_sierra_step(pixels: Seq<u8>, width: int, height: int, k: int)
    requires
        width > 0,
        0 <= k < pixels.len(),
        pixels.len() == width * height,
    ensures
        sierra_step(pixels, width, height, k).len() == pixels.len(),
        sierra_step(pixels, width, height, k)[k] == binarize(pixels[k], THRESHOLD),
        forall|j: int|
            0 <= j < k ==> #[trigger] sierra_step(pixels, width, height, k)[j] == pixels[j],
{
    let first = pixels.update(k, binarize(pixels[k], THRESHOLD));
    lemma_spread_keeps_prefix(first, width, height, k, diffusion_error(pixels[k]), 10);
}

/// The error of a sample `v`, computed without shifting a negative number.
fn error_of(v: u8) -> (e: i32)
    ensures
        e == diffusion_error(v),
        -5 <= e <= 3,
{
    if v > THRESHOLD {
        -(((255 - v) as i32 + 31) / 32)
    } else {
        v as i32 / 32
    }
}

/// Adds `err * weight` to the sample at `(x, y)`, clamped; does nothing where
/// `(x, y)` lies outside the raster.
fn add_error(img: &mut GrayRaster, x: i64, y: i64, err: i32, weight: i32)
    requires
        old(img)@.wf(),
        -5 <= err <= 3,
        0 <= weight <= 5,
    ensures
        final(img)@.wf(),
        final(img)@ == (GrayView {
            pixels: spread(
                old(img)@.pixels,
                old(img)@.width as int,
                old(img)@.height as int,
                x as int,
                y as int,
                err as int,
                weight as int,
            ),
            ..old(img)@
        }),
{
    let len = img.pixels().len();
    if 0 <= x && x < img.width() as i64 && 0 <= y && y < img.height() as i64 {
        proof {
            lemma_row_major_bound(y as int, x as int, img@.width as int, img@.height as int);
        }
        let i = y as usize * img.width() as usize + x as usize;
        let v = img.pixel_at(i) as i32 + err * weight;
        let clamped: u8 = if v < 0 {
            0
        } else if v > 255 {
            255
        } else {
            v as u8
        };
        img.set_pixel_at(i, clamped);
    }
}

/// The Sierra two-row error-diffusion filter.
pub struct Sierra2Row;

impl Ditherer for Sierra2Row {
    open spec fn dithered(&self, width: nat, height: nat, pixels: Seq<u8>) -> Seq<u8> {
        sierra_upto(pixels, width as int, height as int, pixels.len())
    }

    fn dither(&self, buffer: &mut GrayRaster) {
        let n = buffer.pixels().len();
        let width = buffer.width();
        let height = buffer.height();
        let w = width as usize;
        let ghost orig = buffer@;
        let ghost wi = orig.width as int;
        let ghost hi = orig.height as int;
        let mut k: usize = 0;
        while k < n
            invariant
                k <= n,
                n == orig.pixels.len(),
                orig.wf(),
                w == orig.width,
                width == orig.width,
                height == orig.height,
                wi == orig.width,
                hi == orig.height,
                buffer@.wf(),
                buffer@.width == orig.width,
                buffer@.height == orig.height,
                buffer@.pixels == sierra_upto(orig.pixels, wi, hi, k as nat),
                forall|j: int|
                    0 <= j < k ==> #[trigger] buffer@.pixels[j] == 0 || buffer@.pixels[j] == 255,
            decreases n - k,
        {
            proof {
                lemma_nonempty_width(w as int, hi, k as int);
                lemma_sierra_step(buffer@.pixels, wi, hi, k as int);
                lemma_row_of_index(k as int, wi, hi);
            }
            let ghost before = buffer@.pixels;
            let x = (k % w) as i64;
            let y = (k / w) as i64;
            let v = buffer.pixel_at(k);
            let error = error_of(v);
            buffer.set_pixel_at(k, if v > THRESHOLD { 255 } else { 0 });
            let mut c: usize = 0;
            while c < 10
                invariant
                    c <= 10,
                    -5 <= error <= 3,
                    wi == orig.width,
                    hi == orig.height,
                    buffer@.wf(),
                    buffer@.width == orig.width,
                    buffer@.height == orig.height,
                    x == k as int % wi,
                    y == k as int / wi,
                    0 <= x < wi,
                    0 <= y < hi,
                    wi <= u32::MAX,
                    hi <= u32::MAX,
                    buffer@.pixels == spread_to_neighbours(
                        before.update(k as int, binarize(v, THRESHOLD)),
                        wi,
                        hi,
                        x as int,
                        y as int,
                        error as int,
                        c as nat,
                    ),
                decreases 10 - c,
            {
                let ghost done = buffer@.pixels;
                let (dx, dy, weight) = SIERRA2ROW_SPREAD[c];
                add_error(buffer, x + dx, y + dy, error, weight);
                assert(buffer@.pixels == spread(
                    done,
                    wi,
                    hi,
                    x + dx,
                    y + dy,
                    error as int,
                    weight as int,
                ));
                c += 1;
            }
            k += 1;
        }
        assert(buffer@.is_binary());
    }
}

impl Ditherer for DitheringOption {
    open spec fn dithered(&self, width: nat, height: nat, pixels: Seq<u8>) -> Seq<u8> {
        match self {
            DitheringOption::Sierra2 => Sierra2Row.dithered(width, height, pixels),
            DitheringOption::Bayer4x4 => Bayer4x4.dithered(width, height, pixels),
            DitheringOption::Bayer2x2 => Bayer2x2.dithered(width, height, pixels),
            DitheringOption::Threshold => Threshold.dithered(width, height, pixels),
        }
    }

    fn dither(&self, buffer: &mut GrayRaster) {
        match self {
            DitheringOption::Sierra2 => Sierra2Row.dither(buffer),
            DitheringOption::Bayer4x4 => Bayer4x4.dither(buffer),
            DitheringOption::Bayer2x2 => Bayer2x2.dither(buffer),
            DitheringOption::Threshold => Threshold.dither(buffer),
        }
    }
}

} // verus!
