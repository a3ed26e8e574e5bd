//! Rasters of 8-bit samples: the colour image to render and its grayscale form.
use vstd::prelude::*;

verus! {

/// Lightness of an RGBA pixel, 0 to 255: the relative luminance
/// `0.2126 r + 0.7152 g + 0.0722 b`, weighted by `a / 255` (the pixel laid on
/// black) and rounded to the nearest integer, halves upwards.
pub open spec fn luma(r: u8, g: u8, b: u8, a: u8) -> int {
    ((2126 * r + 7152 * g + 722 * b) * a + 1_275_000) / 2_550_000
}

/// A fully transparent pixel has lightness 0, whatever its colour.
pub proof fn lemma_transparent_is_black(r: u8, g: u8, b: u8)
    ensures
        luma(r, g, b, 0) == 0,
{
}

/// Computes [`luma`] exactly, in integers.
pub fn lightness(r: u8, g: u8, b: u8, a: u8) -> (l: u8)
    ensures
        l == luma(r, g, b, a),
{
    let weighted: u64 = 2126 * r as u64 + 7152 * g as u64 + 722 * b as u64;
    assert(weighted * (a as u64) <= 2_550_000 * 255) by (nonlinear_arith)
        requires
            weighted <= 2_550_000,
            a <= 255,
    ;
    let composited: u64 = weighted * a as u64;
    ((composited + 1_275_000) / 2_550_000) as u8
}

/// The product of two `u32` values fits in a `u64`.
proof fn lemma_u32_product_fits(a: u32, b: u32)
    ensures
        a as int * b as int <= u64::MAX,
{
    assert(a as int * b as int <= u64::MAX) by (nonlinear_arith)
        requires
            a <= u32::MAX,
            b <= u32::MAX,
    ;
}

/// What a [`GrayRaster`] holds: its size and its samples, row by row.
pub struct GrayView {
    pub width: nat,
    pub height: nat,
    pub pixels: Seq<u8>,
}

impl GrayView {
    pub open spec fn wf(self) -> bool {
        self.pixels.len() == self.width * self.height
    }

    /// The index of the sample at `(x, y)`.
    pub open spec fn index(self, x: int, y: int) -> int {
        y * self.width + x
    }

    /// Whether every sample is black (0) or white (255).
    pub open spec fn is_binary(self) -> bool {
        forall|i: int|
            0 <= i < self.pixels.len() ==> #[trigger] self.pixels[i] == 0 || self.pixels[i] == 255
    }
}

/// A grayscale raster: one 8-bit sample per pixel, row by row.
pub struct GrayRaster {
    width: u32,
    height: u32,
    pixels: Vec<u8>,
}

impl View for GrayRaster {
    type V = GrayView;

    closed spec fn view(&self) -> GrayView {
        GrayView { width: self.width as nat, height: self.height as nat, pixels: self.pixels@ }
    }
}

impl GrayRaster {
    /// A raster of `width` by `height` samples, given row by row; `None` where
    /// their number is not `width * height`.
    pub fn new(width: u32, height: u32, pixels: Vec<u8>) -> (r: Option<Self>)
        ensures
            pixels@.len() == width * height <==> r is Some,
            r matches Some(g) ==> g@ == (GrayView { width: width as nat, height: height as nat, pixels: pixels@ }),
    {
        proof {
            lemma_u32_product_fits(width, height);
        }
        if pixels.len() as u64 == width as u64 * height as u64 {
            Some(GrayRaster { width, height, pixels })
        } else {
            None
        }
    }

    pub fn width(&self) -> (r: u32)
        ensures
            r == self@.width,
    {
        self.width
    }

    pub fn height(&self) -> (r: u32)
        ensures
            r == self@.height,
    {
        self.height
    }

    /// The samples, row by row.
    pub fn pixels(&self) -> (r: &Vec<u8>)
        ensures
            r@ == self@.pixels,
    {
        &self.pixels
    }

    /// The sample at index `i`.
    pub fn pixel_at(&self, i: usize) -> (r: u8)
        requires
            i < self@.pixels.len(),
        ensures
            r == self@.pixels[i as int],
    {
        self.pixels[i]
    }

    /// Replaces the sample at index `i`.
    pub fn set_pixel_at(&mut self, i: usize, v: u8)
        requires
            i < old(self)@.pixels.len(),
        ensures
            final(self)@ == (GrayView { pixels: old(self)@.pixels.update(i as int, v), ..old(self)@ }),
    {
        self.pixels.set(i, v);
    }
}

/// What an [`RgbaRaster`] holds: its size and its channels, four to a pixel,
/// pixels row by row.
pub struct RgbaView {
    pub width: nat,
    pub height: nat,
    pub rgba: Seq<u8>,
}

impl RgbaView {
    pub open spec fn wf(self) -> bool {
        self.rgba.len() == 4 * (self.width * self.height)
    }

    /// The lightness of each pixel, row by row.
    pub open spec fn lightness(self) -> Seq<u8> {
        Seq::new(
            self.width * self.height,
            |i: int|
                luma(
                    self.rgba[4 * i],
                    self.rgba[4 * i + 1],
                    self.rgba[4 * i + 2],
                    self.rgba[4 * i + 3],
                ) as u8,
        )
    }
}

/// A colour raster: red, green, blue and alpha for each pixel, row by row.
pub struct RgbaRaster {
    width: u32,
    height: u32,
    rgba: Vec<u8>,
}

impl View for RgbaRaster {
    type V = RgbaView;

    closed spec fn view(&self) -> RgbaView {
        RgbaView { width: self.width as nat, height: self.height as nat, rgba: self.rgba@ }
    }
}

impl RgbaRaster {
    /// A raster of `width` by `height` pixels, given as red, green, blue and
    /// alpha for each, row by row; `None` where there are not four channels for
    /// each of the `width * height` pixels.
    pub fn new(width: u32, height: u32, rgba: Vec<u8>) -> (r: Option<Self>)
        ensures
            rgba@.len() == 4 * (width * height) <==> r is Some,
            r matches Some(c) ==> c@ == (RgbaView { width: width as nat, height: height as nat, rgba: rgba@ }),
    {
        proof {
            lemma_u32_product_fits(width, height);
        }
        let n = rgba.len() as u64;
        if n % 4 == 0 && n / 4 == width as u64 * height as u64 {
            Some(RgbaRaster { width, height, rgba })
        } else {
            None
        }
    }

    pub fn width(&self) -> (r: u32)
        ensures
            r == self@.width,
    {
        self.width
    }

    pub fn height(&self) -> (r: u32)
        ensures
            r == self@.height,
    {
        self.height
    }

    /// The grayscale raster of the pixels' lightness.
    pub fn to_gray(&self) -> (r: GrayRaster)
        requires
            self@.wf(),
        ensures
            r@.wf(),
            r@.width == self@.width,
            r@.height == self@.height,
            r@.pixels == self@.lightness(),
    {
        let len = self.rgba.len();
        let n = len / 4;
        let mut pixels: Vec<u8> = Vec::with_capacity(n);
        let mut i: usize = 0;
        while i < n
            invariant
                n == self@.width * self@.height,
                len == self.rgba@.len(),
                4 * n == len,
                self@.wf(),
                i <= n,
                pixels@ == self@.lightness().subrange(0, i as int),
            decreases n - i,
        {
            let l = lightness(
                self.rgba[4 * i],
                self.rgba[4 * i + 1],
                self.rgba[4 * i + 2],
                self.rgba[4 * i + 3],
            );
            pixels.push(l);
            i += 1;
            assert(pixels@ =~= self@.lightness().subrange(0, i as int));
        }
        assert(pixels@ =~= self@.lightness());
        GrayRaster { width: self.width, height: self.height, pixels }
    }
}

} // verus!
