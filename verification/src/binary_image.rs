//! The two-color pixel grid that all thinning algorithms operate on.
//!
//! A `BinaryImage` is a rectangular matrix of cells, each holding one of two
//! labels. Which label plays the role of the background is chosen at
//! construction; the other label is the foreground. Dimensions are fixed for
//! the lifetime of the value and every access is bounds-checked by contract.

use vstd::prelude::*;

use crate::grid::rect;

verus! {

#[derive(Clone, Copy, PartialEq, Eq, Structural, Debug)]
pub enum PixelColor {
    Black,
    White,
}

/// The label that is not `c`.
pub open spec fn opposite(c: PixelColor) -> PixelColor {
    match c {
        PixelColor::Black => PixelColor::White,
        PixelColor::White => PixelColor::Black,
    }
}

pub struct BinaryImage {
    image: Vec<Vec<PixelColor>>,
    bg_color: PixelColor,
    fg_color: PixelColor,
}

impl BinaryImage {
    /// The cell matrix, row-major: `cells()[y][x]` is the cell at `(x, y)`.
    pub closed spec fn cells(&self) -> Seq<Seq<PixelColor>> {
        self.image@.map_values(|r: Vec<PixelColor>| r@)
    }

    pub closed spec fn bg(&self) -> PixelColor {
        self.bg_color
    }

    pub closed spec fn fg(&self) -> PixelColor {
        self.fg_color
    }

    pub open spec fn spec_width(&self) -> int {
        self.cells()[0].len() as int
    }

    pub open spec fn spec_height(&self) -> int {
        self.cells().len() as int
    }

    /// The image is a non-empty rectangle and its two roles are played by the
    /// two distinct labels.
    pub open spec fn wf(&self) -> bool {
        &&& self.spec_height() >= 1
        &&& self.spec_width() >= 1
        &&& rect(self.cells(), self.spec_width(), self.spec_height())
        &&& self.fg() == opposite(self.bg())
    }

    pub fn new(width: usize, height: usize, bg: PixelColor) -> (r: Self)
        requires
            width >= 1,
            height >= 1,
        ensures
            r.wf(),
            r.spec_width() == width,
            r.spec_height() == height,
            r.bg() == bg,
            r.fg() == opposite(bg),
            forall|x: int, y: int|
                0 <= x < width && 0 <= y < height ==> r.cells()[y][x] == bg,
    {
        let mut rows: Vec<Vec<PixelColor>> = Vec::new();
        let mut y: usize = 0;
        while y < height
            invariant
                y <= height,
                rows@.len() == y,
                forall|j: int| 0 <= j < y ==> (#[trigger] rows@[j])@.len() == width,
                forall|j: int, i: int|
                    0 <= j < y && 0 <= i < width ==> #[trigger] rows@[j]@[i] == bg,
            decreases height - y,
        {
            let mut row: Vec<PixelColor> = Vec::new();
            let mut x: usize = 0;
            while x < width
                invariant
                    x <= width,
                    row@.len() == x,
                    forall|i: int| 0 <= i < x ==> row@[i] == bg,
                decreases width - x,
            {
                row.push(bg);
                x = x + 1;
            }
            rows.push(row);
            y = y + 1;
        }
        let r = BinaryImage {
            image: rows,
            bg_color: bg,
            fg_color: if bg == PixelColor::Black {
                PixelColor::White
            } else {
                PixelColor::Black
            },
        };
        proof {
            assert(forall|j: int| 0 <= j < height
                ==> r.cells()[j] == (#[trigger] r.image@[j])@);
        }
        r
    }

    pub fn width(&self) -> (r: usize)
        requires
            self.wf(),
        ensures
            r == self.spec_width(),
    {
        proof {
            assert(self.cells()[0] == self.image@[0]@);
        }
        self.image[0].len()
    }

    pub fn height(&self) -> (r: usize)
        requires
            self.wf(),
        ensures
            r == self.spec_height(),
    {
        self.image.len()
    }

    pub fn get_bg_color(&self) -> (r: PixelColor)
        ensures
            r == self.bg(),
    {
        self.bg_color
    }

    pub fn get_fg_color(&self) -> (r: PixelColor)
        ensures
            r == self.fg(),
    {
        self.fg_color
    }

    fn get_color(&self, x: usize, y: usize) -> (r: PixelColor)
        requires
            self.wf(),
            x < self.spec_width(),
            y < self.spec_height(),
        ensures
            r == self.cells()[y as int][x as int],
    {
        proof {
            assert(self.cells()[y as int] == self.image@[y as int]@);
        }
        self.image[y][x]
    }

    pub fn is_fg(&self, x: usize, y: usize) -> (r: bool)
        requires
            self.wf(),
            x < self.spec_width(),
            y < self.spec_height(),
        ensures
            r == (self.cells()[y as int][x as int] == self.fg()),
    {
        self.get_color(x, y) == self.fg_color
    }

    pub fn is_bg(&self, x: usize, y: usize) -> (r: bool)
        requires
            self.wf(),
            x < self.spec_width(),
            y < self.spec_height(),
        ensures
            r == (self.cells()[y as int][x as int] == self.bg()),
    {
        self.get_color(x, y) == self.bg_color
    }

    fn set_color(&mut self, x: usize, y: usize, color: PixelColor)
        requires
            old(self).wf(),
            x < old(self).spec_width(),
            y < old(self).spec_height(),
        ensures
            final(self).wf(),
            final(self).bg() == old(self).bg(),
            final(self).fg() == old(self).fg(),
            final(self).cells() == old(self).cells().update(
                y as int,
                old(self).cells()[y as int].update(x as int, color),
            ),
    {
        proof {
            assert(self.cells()[y as int] == self.image@[y as int]@);
        }
        self.image[y][x] = color;
        proof {
            assert(final(self).cells() =~= old(self).cells().update(
                y as int,
                old(self).cells()[y as int].update(x as int, color),
            )) by {
                assert(forall|j: int| 0 <= j < self.image@.len()
                    ==> final(self).cells()[j] == (#[trigger] self.image@[j])@);
                assert(forall|j: int| 0 <= j < old(self).image@.len()
                    ==> old(self).cells()[j] == (#[trigger] old(self).image@[j])@);
            };
        }
    }

    pub fn set_fg(&mut self, x: usize, y: usize)
        requires
            old(self).wf(),
            x < old(self).spec_width(),
            y < old(self).spec_height(),
        ensures
            final(self).wf(),
            final(self).bg() == old(self).bg(),
            final(self).fg() == old(self).fg(),
            final(self).cells() == old(self).cells().update(
                y as int,
                old(self).cells()[y as int].update(x as int, old(self).fg()),
            ),
    {
        let c = self.fg_color;
        self.set_color(x, y, c);
    }

    pub fn set_bg(&mut self, x: usize, y: usize)
        requires
            old(self).wf(),
            x < old(self).spec_width(),
            y < old(self).spec_height(),
        ensures
            final(self).wf(),
            final(self).bg() == old(self).bg(),
            final(self).fg() == old(self).fg(),
            final(self).cells() == old(self).cells().update(
                y as int,
                old(self).cells()[y as int].update(x as int, old(self).bg()),
            ),
    {
        let c = self.bg_color;
        self.set_color(x, y, c);
    }

    pub fn fill(&mut self, color: PixelColor)
        requires
            old(self).wf(),
        ensures
            final(self).wf(),
            final(self).bg() == old(self).bg(),
            final(self).fg() == old(self).fg(),
            final(self).spec_width() == old(self).spec_width(),
            final(self).spec_height() == old(self).spec_height(),
            forall|x: int, y: int|
                0 <= x < old(self).spec_width() && 0 <= y < old(self).spec_height()
                    ==> final(self).cells()[y][x] == color,
    {
        let w = self.width();
        let h = self.height();
        let mut y: usize = 0;
        while y < h
            invariant
                y <= h,
                self.wf(),
                self.bg() == old(self).bg(),
                self.fg() == old(self).fg(),
                self.spec_width() == w,
                self.spec_height() == h,
                forall|i: int, j: int|
                    0 <= i < w && 0 <= j < y ==> self.cells()[j][i] == color,
            decreases h - y,
        {
            let mut x: usize = 0;
            while x < w
                invariant
                    x <= w,
                    y < h,
                    self.wf(),
                    self.bg() == old(self).bg(),
                    self.fg() == old(self).fg(),
                    self.spec_width() == w,
                    self.spec_height() == h,
                    forall|i: int, j: int|
                        0 <= i < w && 0 <= j < y ==> self.cells()[j][i] == color,
                    forall|i: int| 0 <= i < x ==> self.cells()[y as int][i] == color,
                decreases w - x,
            {
                self.set_color(x, y, color);
                x = x + 1;
            }
            y = y + 1;
        }
    }

    pub fn pixels_iter(&self) -> (r: PixelIterator)
        requires
            self.wf(),
        ensures
            r.wf(),
            r.cur_x() == 0,
            r.cur_y() == 0,
            r.w() == self.spec_width(),
            r.h() == self.spec_height(),
    {
        PixelIterator::new(self)
    }
}

/// Yields all `(x, y)` coordinates of an image in row-major order
/// (`y` outer, `x` inner), for deterministic full-grid scans.
pub struct PixelIterator {
    current_x: usize,
    current_y: usize,
    width: usize,
    height: usize,
}

impl PixelIterator {
    pub closed spec fn cur_x(&self) -> int {
        self.current_x as int
    }

    pub closed spec fn cur_y(&self) -> int {
        self.current_y as int
    }

    pub closed spec fn w(&self) -> int {
        self.width as int
    }

    pub closed spec fn h(&self) -> int {
        self.height as int
    }

    pub open spec fn wf(&self) -> bool {
        &&& self.w() >= 1
        &&& self.h() >= 1
        &&& self.cur_x() <= self.w()
        &&& self.cur_y() < self.h()
    }

    pub fn new(image: &BinaryImage) -> (r: PixelIterator)
        requires
            image.wf(),
        ensures
            r.wf(),
            r.cur_x() == 0,
            r.cur_y() == 0,
            r.w() == image.spec_width(),
            r.h() == image.spec_height(),
    {
        PixelIterator {
            current_x: 0,
            current_y: 0,
            width: image.width(),
            height: image.height(),
        }
    }

    pub fn next(&mut self) -> (r: Option<(usize, usize)>)
        requires
            old(self).wf(),
        ensures
            final(self).wf(),
            final(self).w() == old(self).w(),
            final(self).h() == old(self).h(),
            match r {
                Option::None => {
                    &&& *final(self) == *old(self)
                    &&& old(self).cur_x() == old(self).w()
                    &&& old(self).cur_y() == old(self).h() - 1
                },
                Option::Some(p) => {
                    let sx = if old(self).cur_x() == old(self).w() { 0int } else {
                        old(self).cur_x()
                    };
                    let sy = if old(self).cur_x() == old(self).w() {
                        old(self).cur_y() + 1
                    } else {
                        old(self).cur_y()
                    };
                    &&& p.0 == sx
                    &&& p.1 == sy
                    &&& p.0 < old(self).w()
                    &&& p.1 < old(self).h()
                    &&& final(self).cur_x() == sx + 1
                    &&& final(self).cur_y() == sy
                },
            },
    {
        if self.current_x == self.width {
            if self.current_y >= self.height - 1 {
                return Option::None;
            } else {
                self.current_y = self.current_y + 1;
                self.current_x = 0;
            }
        }

        let ret = (self.current_x, self.current_y);
        self.current_x = self.current_x + 1;

        Option::Some(ret)
    }
}

} // verus!

// Conversion between the two-color grid and a plain RGB raster.
use crate::raster::RgbRaster;

verus! {

/// The cell a raster pixel binarizes to: white exactly when some channel of
/// the pixel is nonzero.
pub open spec fn binarize_cell(r: RgbRaster, x: int, y: int) -> PixelColor {
    if exists|c: int| 0 <= c < 3 && #[trigger] r.spec_channel(x, y, c) != 0 {
        PixelColor::White
    } else {
        PixelColor::Black
    }
}

/// The value every channel of a rendered pixel takes: background cells
/// render as the raster's maximum brightness, foreground cells as zero.
pub open spec fn rendered_channel(img: BinaryImage, x: int, y: int) -> u8 {
    if img.cells()[y][x] == img.bg() {
        255u8
    } else {
        0u8
    }
}

impl BinaryImage {
    /// Builds the grid a raster binarizes to: a cell is white exactly when
    /// some channel of its pixel is nonzero, and the given label is the
    /// background.
    pub fn from_image(raster: &RgbRaster, bg_color: PixelColor) -> (r: BinaryImage)
        requires
            raster.wf(),
            raster.spec_width() >= 1,
            raster.spec_height() >= 1,
        ensures
            r.wf(),
            r.spec_width() == raster.spec_width(),
            r.spec_height() == raster.spec_height(),
            r.bg() == bg_color,
            r.fg() == opposite(bg_color),
            forall|x: int, y: int|
                0 <= x < raster.spec_width() && 0 <= y < raster.spec_height()
                    ==> r.cells()[y][x] == binarize_cell(*raster, x, y),
    {
        let w = raster.width();
        let h = raster.height();
        let mut image = BinaryImage::new(w, h, bg_color);
        let mut y: usize = 0;
        while y < h
            invariant
                y <= h,
                raster.wf(),
                w == raster.spec_width(),
                h == raster.spec_height(),
                image.wf(),
                image.spec_width() == w,
                image.spec_height() == h,
                image.bg() == bg_color,
                image.fg() == opposite(bg_color),
                forall|a: int, b: int|
                    0 <= a < w && 0 <= b < y ==> image.cells()[b][a] == binarize_cell(
                        *raster,
                        a,
                        b,
                    ),
            decreases h - y,
        {
            let mut x: usize = 0;
            while x < w
                invariant
                    x <= w,
                    y < h,
                    raster.wf(),
                    w == raster.spec_width(),
                    h == raster.spec_height(),
                    image.wf(),
                    image.spec_width() == w,
                    image.spec_height() == h,
                    image.bg() == bg_color,
                    image.fg() == opposite(bg_color),
                    forall|a: int, b: int|
                        0 <= a < w && 0 <= b < y ==> image.cells()[b][a] == binarize_cell(
                            *raster,
                            a,
                            b,
                        ),
                    forall|a: int|
                        0 <= a < x ==> image.cells()[y as int][a] == binarize_cell(
                            *raster,
                            a,
                            y as int,
                        ),
                decreases w - x,
            {
                let c0 = raster.get_channel(x, y, 0);
                let c1 = raster.get_channel(x, y, 1);
                let c2 = raster.get_channel(x, y, 2);
                let nonzero = c0 != 0 || c1 != 0 || c2 != 0;
                proof {
                    if !nonzero {
                        assert(!(exists|c: int|
                            0 <= c < 3 && #[trigger] raster.spec_channel(x as int, y as int, c)
                                != 0)) by {
                            if exists|c: int|
                                0 <= c < 3 && #[trigger] raster.spec_channel(x as int, y as int, c)
                                    != 0 {
                                let c = choose|c: int|
                                    0 <= c < 3 && #[trigger] raster.spec_channel(
                                        x as int,
                                        y as int,
                                        c,
                                    ) != 0;
                                assert(c == 0 || c == 1 || c == 2);
                            }
                        };
                    }
                }
                let color = if nonzero {
                    PixelColor::White
                } else {
                    PixelColor::Black
                };
                if color == image.get_fg_color() {
                    image.set_fg(x, y);
                } else {
                    image.set_bg(x, y);
                }
                x = x + 1;
            }
            y = y + 1;
        }
        image
    }

    /// Renders the grid back to a raster: background cells become pure
    /// maximum brightness, foreground cells stay at zero.
    pub fn to_rgb_image(&self) -> (r: RgbRaster)
        requires
            self.wf(),
            3 * self.spec_width() * self.spec_height() <= usize::MAX,
        ensures
            r.wf(),
            r.spec_width() == self.spec_width(),
            r.spec_height() == self.spec_height(),
            forall|x: int, y: int, c: int|
                0 <= x < self.spec_width() && 0 <= y < self.spec_height() && 0 <= c < 3
                    ==> #[trigger] r.spec_channel(x, y, c) == rendered_channel(*self, x, y),
    {
        let w = self.width();
        let h = self.height();
        let mut out = RgbRaster::new(w, h);
        proof {
            assert forall|a: int, b: int, c: int|
                0 <= a < w && 0 <= b < h && 0 <= c < 3 implies #[trigger] out.spec_channel(
                a,
                b,
                c,
            ) == 0u8 by {
                assert(0 <= 3 * (b * w + a) + c < out.data_seq().len()) by (nonlinear_arith)
                    requires
                        0 <= a < w,
                        0 <= b < h,
                        0 <= c < 3,
                        out.data_seq().len() == 3 * w * h,
                ;
            };
        }
        let mut y: usize = 0;
        while y < h
            invariant
                y <= h,
                self.wf(),
                w == self.spec_width(),
                h == self.spec_height(),
                out.wf(),
                out.spec_width() == w,
                out.spec_height() == h,
                forall|a: int, b: int, c: int|
                    0 <= a < w && 0 <= b < y && 0 <= c < 3 ==> #[trigger] out.spec_channel(a, b, c)
                        == rendered_channel(*self, a, b),
                forall|a: int, b: int, c: int|
                    0 <= a < w && y <= b < h && 0 <= c < 3 ==> #[trigger] out.spec_channel(a, b, c)
                        == 0u8,
            decreases h - y,
        {
            let mut x: usize = 0;
            while x < w
                invariant
                    x <= w,
                    y < h,
                    self.wf(),
                    w == self.spec_width(),
                    h == self.spec_height(),
                    out.wf(),
                    out.spec_width() == w,
                    out.spec_height() == h,
                    forall|a: int, b: int, c: int|
                        0 <= a < w && 0 <= b < y && 0 <= c < 3 ==> #[trigger] out.spec_channel(
                            a,
                            b,
                            c,
                        ) == rendered_channel(*self, a, b),
                    forall|a: int, c: int|
                        0 <= a < x && 0 <= c < 3 ==> #[trigger] out.spec_channel(a, y as int, c)
                            == rendered_channel(*self, a, y as int),
                    forall|a: int, c: int|
                        x <= a < w && 0 <= c < 3 ==> #[trigger] out.spec_channel(a, y as int, c)
                            == 0u8,
                    forall|a: int, b: int, c: int|
                        0 <= a < w && y < b < h && 0 <= c < 3 ==> #[trigger] out.spec_channel(
                            a,
                            b,
                            c,
                        ) == 0u8,
                decreases w - x,
            {
                if self.is_bg(x, y) {
                    out.set_channel(x, y, 0, 255);
                    out.set_channel(x, y, 1, 255);
                    out.set_channel(x, y, 2, 255);
                }
                x = x + 1;
            }
            y = y + 1;
        }
        out
    }
}

} // verus!
