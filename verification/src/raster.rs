//! The library's own images: plain row-major byte buffers with their dimensions,
//! and the image operations of the `image` and `imageproc` crates that the
//! analysis calls on them.

use vstd::prelude::*;

verus! {

/// The bound, exclusive, on each side of an image that the outside image
/// operations take: they convert coordinates to `i32` (through `f32` when they
/// draw a line, which rounds to a multiple of 128 up here) and step one pixel, or
/// a filter radius of up to 1000, past them. It is 1024 below 2^31.
pub const MAX_SIDE: u32 = 2147482624;

/// The three channels of pixel `k` of a row-major RGB buffer.
pub open spec fn rgb_at(data: Seq<u8>, k: int) -> (u8, u8, u8) {
    (data[3 * k], data[3 * k + 1], data[3 * k + 2])
}

/// An 8-bit RGB image stored row by row, three bytes per pixel.
pub struct RgbImage {
    pub width: u32,
    pub height: u32,
    pub data: Vec<u8>,
}

/// An 8-bit single-channel image stored row by row, one byte per pixel.
pub struct GrayImage {
    pub width: u32,
    pub height: u32,
    pub data: Vec<u8>,
}

impl RgbImage {
    /// The number of pixels.
    pub open spec fn pixel_count(&self) -> int {
        self.width * self.height
    }

    /// The buffer holds exactly three bytes for every pixel.
    pub open spec fn wf(&self) -> bool {
        self.data@.len() == 3 * self.pixel_count()
    }

    /// Both sides are below `MAX_SIDE`.
    pub open spec fn fits(&self) -> bool {
        self.width < MAX_SIDE && self.height < MAX_SIDE
    }

    /// The pixel at column `x` and row `y`.
    pub open spec fn pixel(&self, x: int, y: int) -> (u8, u8, u8) {
        rgb_at(self.data@, y * self.width + x)
    }

    /// Wraps a buffer as an image when it holds exactly three bytes per pixel.
    pub fn from_raw(width: u32, height: u32, data: Vec<u8>) -> (image: Option<RgbImage>)
        ensures
            image is Some <==> data@.len() == 3 * (width * height),
            image matches Some(i) ==> i.width == width && i.height == height && i.data@ == data@,
    {
        let available = data.len();
        match (width as usize).checked_mul(height as usize) {
            Some(n) => match n.checked_mul(3) {
                Some(len) => {
                    if available == len {
                        Some(RgbImage { width, height, data })
                    } else {
                        None
                    }
                },
                None => None,
            },
            None => {
                proof {
                    lemma_product_bound(width as int, height as int, usize::MAX as int);
                }
                None
            },
        }
    }

    /// The pixel at column `x` and row `y`.
    pub fn get_pixel(&self, x: u32, y: u32) -> (rgb: (u8, u8, u8))
        requires
            self.wf(),
            x < self.width,
            y < self.height,
        ensures
            rgb == self.pixel(x as int, y as int),
    {
        proof {
            lemma_index_in_bounds(x as int, y as int, self.width as int, self.height as int);
        }
        let total = self.data.len();
        assert(total == 3 * (self.width * self.height));
        let k = y as usize * self.width as usize + x as usize;
        (self.data[3 * k], self.data[3 * k + 1], self.data[3 * k + 2])
    }
}

/// The dimensions and bytes of an intensity image.
pub type GrayView = (u32, u32, Seq<u8>);

/// The intensity at column `x` and row `y` of a viewed intensity image.
pub open spec fn luma_at(view: GrayView, x: int, y: int) -> u8 {
    view.2[y * view.0 + x]
}

impl View for GrayImage {
    type V = GrayView;

    open spec fn view(&self) -> GrayView {
        (self.width, self.height, self.data@)
    }
}

impl GrayImage {
    /// The number of pixels.
    pub open spec fn pixel_count(&self) -> int {
        self.width * self.height
    }

    /// The buffer holds exactly one byte for every pixel.
    pub open spec fn wf(&self) -> bool {
        self.data@.len() == self.pixel_count()
    }

    /// Both sides are below `MAX_SIDE`.
    pub open spec fn fits(&self) -> bool {
        self.width < MAX_SIDE && self.height < MAX_SIDE
    }

    /// The intensity at column `x` and row `y`.
    pub open spec fn luma(&self, x: int, y: int) -> u8 {
        self.data@[y * self.width + x]
    }

    /// The intensity at column `x` and row `y`.
    pub fn get_luma(&self, x: u32, y: u32) -> (l: u8)
        requires
            self.wf(),
            x < self.width,
            y < self.height,
        ensures
            l == self.luma(x as int, y as int),
            l == luma_at(self@, x as int, y as int),
    {
        proof {
            lemma_index_in_bounds(x as int, y as int, self.width as int, self.height as int);
        }
        let total = self.data.len();
        assert(total == self.width * self.height);
        self.data[y as usize * self.width as usize + x as usize]
    }
}

/// A pixel inside a `width` by `height` grid has a row-major index below `width * height`.
pub proof fn lemma_index_in_bounds(x: int, y: int, width: int, height: int)
    requires
        0 <= x < width,
        0 <= y < height,
    ensures
        0 <= y * width + x < width * height,
        y * width + x + 1 <= width * height,
{
    assert(y * width + x < width * height) by (nonlinear_arith)
        requires
            0 <= x < width,
            0 <= y < height,
    ;
    assert(0 <= y * width) by (nonlinear_arith)
        requires
            0 <= y,
            0 <= x < width,
    ;
}

/// A product that overflows a bound has no multiple of three within it either.
proof fn lemma_product_bound(a: int, b: int, bound: int)
    requires
        a >= 0,
        b >= 0,
        a * b > bound,
    ensures
        3 * (a * b) > bound,
{
}

} // verus!
