//! A plain 8-bit RGB raster: three bytes per pixel, row-major.
//!
//! This is the concrete pixel buffer the library exchanges with raster
//! codecs: channel `c` of pixel `(x, y)` lives at byte `3 * (y * width + x)
//! + c`. The invariant ties the buffer length to the dimensions exactly.

use vstd::prelude::*;
use vstd::arithmetic::div_mod::lemma_fundamental_div_mod_converse;

verus! {

pub struct RgbRaster {
    width: usize,
    height: usize,
    data: Vec<u8>,
}

/// Distinct channel coordinates address distinct bytes.
proof fn lemma_channel_index_unique(
    w: int,
    x1: int,
    y1: int,
    c1: int,
    x2: int,
    y2: int,
    c2: int,
)
    requires
        0 <= x1 < w,
        0 <= x2 < w,
        0 <= y1,
        0 <= y2,
        0 <= c1 < 3,
        0 <= c2 < 3,
        3 * (y1 * w + x1) + c1 == 3 * (y2 * w + x2) + c2,
    ensures
        x1 == x2,
        y1 == y2,
        c1 == c2,
{
    let p1 = y1 * w + x1;
    let p2 = y2 * w + x2;
    assert(3 * p1 + c1 == 3 * p2 + c2);
    assert(3 * (p1 - p2) == c2 - c1) by (nonlinear_arith)
        requires 3 * p1 + c1 == 3 * p2 + c2;
    assert(p1 == p2) by (nonlinear_arith)
        requires 3 * (p1 - p2) == c2 - c1 && -2 <= c2 - c1 <= 2;
    lemma_fundamental_div_mod_converse(p1, w, y1, x1);
    lemma_fundamental_div_mod_converse(p2, w, y2, x2);
}

impl RgbRaster {
    pub closed spec fn spec_width(&self) -> int {
        self.width as int
    }

    pub closed spec fn spec_height(&self) -> int {
        self.height as int
    }

    pub closed spec fn data_seq(&self) -> Seq<u8> {
        self.data@
    }

    /// The buffer holds exactly three bytes for each pixel.
    pub open spec fn wf(&self) -> bool {
        &&& self.spec_width() >= 0
        &&& self.spec_height() >= 0
        &&& self.data_seq().len() == 3 * self.spec_width() * self.spec_height()
    }

    /// Channel `c` of pixel `(x, y)`.
    pub open spec fn spec_channel(&self, x: int, y: int, c: int) -> u8 {
        self.data_seq()[3 * (y * self.spec_width() + x) + c]
    }

    /// A raster of the given dimensions with every channel zero.
    pub fn new(width: usize, height: usize) -> (r: RgbRaster)
        requires
            3 * width * height <= usize::MAX,
        ensures
            r.wf(),
            r.spec_width() == width,
            r.spec_height() == height,
            forall|i: int| 0 <= i < r.data_seq().len() ==> r.data_seq()[i] == 0u8,
    {
        proof {
            assert(width * height <= 3 * width * height) by (nonlinear_arith)
                requires width >= 0 && height >= 0;
            assert(3 * (width * height) == 3 * width * height) by (nonlinear_arith);
        }
        let pixels = width * height;
        let n = 3 * pixels;
        let mut data: Vec<u8> = Vec::new();
        let mut i: usize = 0;
        while i < n
            invariant
                i <= n,
                data@.len() == i,
                forall|j: int| 0 <= j < i ==> data@[j] == 0u8,
            decreases n - i,
        {
            data.push(0);
            i = i + 1;
        }
        RgbRaster { width, height, data }
    }

    /// Wraps an existing buffer whose length matches the dimensions.
    pub fn from_parts(width: usize, height: usize, data: Vec<u8>) -> (r: RgbRaster)
        requires
            data@.len() == 3 * width * height,
        ensures
            r.wf(),
            r.spec_width() == width,
            r.spec_height() == height,
            r.data_seq() == data@,
    {
        RgbRaster { width, height, data }
    }

    pub fn width(&self) -> (r: usize)
        ensures
            r == self.spec_width(),
    {
        self.width
    }

    pub fn height(&self) -> (r: usize)
        ensures
            r == self.spec_height(),
    {
        self.height
    }

    pub fn data(&self) -> (r: &Vec<u8>)
        ensures
            r@ == self.data_seq(),
    {
        &self.data
    }

    /// The byte index of channel `c` of pixel `(x, y)`.
    fn index_of(&self, x: usize, y: usize, c: usize) -> (r: usize)
        requires
            self.wf(),
            x < self.spec_width(),
            y < self.spec_height(),
            c < 3,
        ensures
            r == 3 * (y * self.spec_width() + x) + c,
            r < self.data_seq().len(),
    {
        let len = self.data.len();
        proof {
            assert(len == self.data_seq().len());
            assert(0 <= y * self.spec_width() + x && y * self.spec_width() + x
                < self.spec_width() * self.spec_height()) by (nonlinear_arith)
                requires
                    0 <= x < self.spec_width(),
                    0 <= y < self.spec_height(),
            ;
            assert(3 * (y * self.spec_width() + x) + c < 3 * (self.spec_width()
                * self.spec_height())) by (nonlinear_arith)
                requires
                    y * self.spec_width() + x < self.spec_width() * self.spec_height(),
                    0 <= c < 3,
            ;
            assert(3 * (self.spec_width() * self.spec_height()) == 3 * self.spec_width()
                * self.spec_height()) by (nonlinear_arith);
            assert(self.spec_width() * self.spec_height() <= self.data_seq().len())
                by (nonlinear_arith)
                requires
                    self.data_seq().len() == 3 * self.spec_width() * self.spec_height(),
                    self.spec_width() >= 0,
                    self.spec_height() >= 0,
            ;
        }
        3 * (y * self.width + x) + c
    }

    pub fn get_channel(&self, x: usize, y: usize, c: usize) -> (r: u8)
        requires
            self.wf(),
            x < self.spec_width(),
            y < self.spec_height(),
            c < 3,
        ensures
            r == self.spec_channel(x as int, y as int, c as int),
    {
        let i = self.index_of(x, y, c);
        self.data[i]
    }

    pub fn set_channel(&mut self, x: usize, y: usize, c: usize, v: u8)
        requires
            old(self).wf(),
            x < old(self).spec_width(),
            y < old(self).spec_height(),
            c < 3,
        ensures
            final(self).wf(),
            final(self).spec_width() == old(self).spec_width(),
            final(self).spec_height() == old(self).spec_height(),
            final(self).spec_channel(x as int, y as int, c as int) == v,
            forall|a: int, b: int, c2: int|
                0 <= a < old(self).spec_width() && 0 <= b < old(self).spec_height() && 0 <= c2 < 3
                    && !(a == x && b == y && c2 == c) ==> final(self).spec_channel(a, b, c2)
                    == old(self).spec_channel(a, b, c2),
    {
        let i = self.index_of(x, y, c);
        self.data[i] = v;
        proof {
            let w = old(self).spec_width();
            let h = old(self).spec_height();
            let len = self.data_seq().len();
            assert forall|a: int, b: int, c2: int|
                0 <= a < w && 0 <= b < h && 0 <= c2 < 3 && !(a == x && b == y
                    && c2 == c) implies final(self).spec_channel(a, b, c2) == old(
                self,
            ).spec_channel(a, b, c2) by {
                if 3 * (b * w + a) + c2 == 3 * (y as int * w + x as int) + c as int {
                    lemma_channel_index_unique(w, a, b, c2, x as int, y as int, c as int);
                }
                assert(0 <= 3 * (b * w + a) + c2 < len) by (nonlinear_arith)
                    requires
                        0 <= a < w,
                        0 <= b < h,
                        0 <= c2 < 3,
                        len == 3 * w * h,
                ;
            };
        }
    }
}

} // verus!
