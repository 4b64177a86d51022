//! A decoded bitmap: a grid of colors read by position.

use crate::color::Color;
use crate::coords::pixel_index;
use vstd::prelude::*;

verus! {

/// The mathematical content of a bitmap: its size and its pixels, row by row
/// from the top left.
pub struct BitmapView {
    pub width: nat,
    pub height: nat,
    pub pixels: Seq<Color>,
}

impl BitmapView {
    /// There is one color for every position.
    pub open spec fn wf(self) -> bool {
        self.pixels.len() == self.width * self.height
    }

    /// Does `(x, y)` fall inside the bitmap?
    pub open spec fn in_bounds(self, x: int, y: int) -> bool {
        0 <= x < self.width && 0 <= y < self.height
    }

    /// The color at a position inside the bitmap.
    pub open spec fn pixel(self, x: int, y: int) -> Color {
        self.pixels[y * self.width + x]
    }

    /// The color at `(x, y)`, or `None` outside the bitmap.
    pub open spec fn get_opt(self, x: int, y: int) -> Option<Color> {
        if self.in_bounds(x, y) {
            Some(self.pixel(x, y))
        } else {
            None
        }
    }

    /// The column of the `i`-th pixel.
    pub open spec fn x_of(self, i: int) -> int {
        i % (self.width as int)
    }

    /// The row of the `i`-th pixel.
    pub open spec fn y_of(self, i: int) -> int {
        i / (self.width as int)
    }

    /// Does any pixel have the color `c`?
    pub open spec fn has_color(self, c: Color) -> bool {
        self.pixels.contains(c)
    }
}

/// In a well-formed bitmap the position `(x, y)` and the index
/// `y * width + x` name the same pixel.
pub proof fn lemma_position_index(img: BitmapView, x: int, y: int)
    requires
        img.wf(),
        img.in_bounds(x, y),
    ensures
        0 <= y * img.width + x < img.pixels.len(),
        img.x_of(y * img.width + x) == x,
        img.y_of(y * img.width + x) == y,
{
    let w = img.width as int;
    let h = img.height as int;
    assert(y * w + x < h * w) by (nonlinear_arith)
        requires
            0 <= x < w,
            0 <= y < h,
    ;
    assert(0 <= y * w + x) by (nonlinear_arith)
        requires
            0 <= x < w,
            0 <= y < h,
    ;
    vstd::arithmetic::div_mod::lemma_fundamental_div_mod_converse(y * w + x, w, y, x);
}

/// In a well-formed bitmap every index below the number of pixels lies at a
/// position inside the bitmap.
pub proof fn lemma_index_position(img: BitmapView, i: int)
    requires
        img.wf(),
        0 <= i < img.pixels.len(),
    ensures
        img.in_bounds(img.x_of(i), img.y_of(i)),
        img.y_of(i) * img.width + img.x_of(i) == i,
        img.pixel(img.x_of(i), img.y_of(i)) == img.pixels[i],
{
    let w = img.width as int;
    let h = img.height as int;
    assert(w > 0) by (nonlinear_arith)
        requires
            0 <= i < w * h,
            0 <= w,
    ;
    vstd::arithmetic::div_mod::lemma_fundamental_div_mod(i, w);
    vstd::arithmetic::div_mod::lemma_mod_bound(i, w);
    vstd::arithmetic::div_mod::lemma_div_pos_is_pos(i, w);
    let x = i % w;
    let y = i / w;
    assert(w * y == y * w) by (nonlinear_arith);
    assert(y < h) by (nonlinear_arith)
        requires
            y * w + x == i,
            i < w * h,
            0 <= x,
            0 < w,
            0 <= y,
    ;
}

/// A decoded bitmap with four 8-bit channels per pixel.
#[derive(Debug)]
pub struct Bitmap {
    width: u32,
    height: u32,
    pixels: Vec<Color>,
}

impl View for Bitmap {
    type V = BitmapView;

    closed spec fn view(&self) -> BitmapView {
        BitmapView {
            width: self.width as nat,
            height: self.height as nat,
            pixels: self.pixels@,
        }
    }
}

impl Bitmap {
    /// The invariant of the type: there is one color for every position.
    pub open spec fn wf(&self) -> bool {
        &&& self@.wf()
        &&& self@.width <= u32::MAX
        &&& self@.height <= u32::MAX
        &&& self@.pixels.len() <= usize::MAX
    }

    /// Builds a bitmap from its pixels, listed row by row from the top left.
    /// Returns `None` unless there are exactly `width * height` of them.
    pub fn new(width: u32, height: u32, pixels: Vec<Color>) -> (bitmap: Option<Bitmap>)
        ensures
            bitmap is Some <==> pixels@.len() == width * height,
            bitmap matches Some(b) ==> b.wf() && b@ == (BitmapView {
                width: width as nat,
                height: height as nat,
                pixels: pixels@,
            }),
    {
        assert(width * height <= 0xffff_ffff * 0xffff_ffff) by (nonlinear_arith)
            requires
                0 <= width <= 0xffff_ffff,
                0 <= height <= 0xffff_ffff,
        ;
        let expected: u64 = (width as u64) * (height as u64);
        if pixels.len() as u64 == expected {
            Some(Bitmap { width, height, pixels })
        } else {
            None
        }
    }

    /// The width of this bitmap.
    pub fn width(&self) -> (w: u32)
        ensures
            w == self@.width,
    {
        self.width
    }

    /// The height of this bitmap.
    pub fn height(&self) -> (h: u32)
        ensures
            h == self@.height,
    {
        self.height
    }

    /// The pixels of this bitmap, row by row from the top left.
    pub fn pixels(&self) -> (pixels: &Vec<Color>)
        ensures
            pixels@ == self@.pixels,
    {
        &self.pixels
    }

    /// The color at a position inside the bitmap.
    pub fn get_pixel(&self, x: u32, y: u32) -> (c: Color)
        requires
            self.wf(),
            self@.in_bounds(x as int, y as int),
        ensures
            c == self@.pixel(x as int, y as int),
    {
        proof {
            lemma_position_index(self@, x as int, y as int);
        }
        let i: usize = (y as usize) * (self.width as usize) + (x as usize);
        self.pixels[i]
    }

    /// Return the value of the pixel at `x` and `y` if those coordinates
    /// fall inside the bitmap, or `None` if they're out of bounds.
    pub fn get_opt(&self, x: i64, y: i64) -> (p: Option<Color>)
        requires
            self.wf(),
        ensures
            p == self@.get_opt(x as int, y as int),
    {
        match (pixel_index(x), pixel_index(y)) {
            (Some(px), Some(py)) => {
                if px >= self.width || py >= self.height {
                    None
                } else {
                    Some(self.get_pixel(px, py))
                }
            },
            _ => None,
        }
    }
}

} // verus!
