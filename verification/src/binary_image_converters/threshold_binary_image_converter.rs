//! The fixed-threshold binarizer.
//!
//! A pixel whose channels are all at most the threshold becomes the raster's
//! minimum value (zero) in every channel; any other pixel becomes the
//! maximum value (255) in every channel.

use vstd::prelude::*;

use super::BinaryImageConverter;
use crate::raster::RgbRaster;

verus! {

pub struct ThresholdBinaryImageConverter {
    threshold: u32,
}

/// Every channel of the pixel is at most the threshold.
pub open spec fn pixel_low(r: RgbRaster, t: u32, x: int, y: int) -> bool {
    forall|c: int| 0 <= c < 3 ==> #[trigger] r.spec_channel(x, y, c) <= t
}

impl ThresholdBinaryImageConverter {
    pub closed spec fn spec_threshold(&self) -> u32 {
        self.threshold
    }

    pub fn new(threshold: u32) -> (r: Self)
        ensures
            r.spec_threshold() == threshold,
    {
        ThresholdBinaryImageConverter { threshold }
    }

    /// How many progress reports a full conversion makes at most.
    pub fn compute_max_progress(width: u32, height: u32) -> (r: u32)
        ensures
            r == height,
    {
        height
    }
}

impl BinaryImageConverter for ThresholdBinaryImageConverter {
    /// Each pixel whose channels all lay at or below the threshold is now
    /// zero in every channel; every other pixel is now 255 in every channel.
    open spec fn converted(&self, before: RgbRaster, after: RgbRaster) -> bool {
        forall|x: int, y: int, c: int|
            0 <= x < before.spec_width() && 0 <= y < before.spec_height() && 0 <= c < 3
                ==> #[trigger] after.spec_channel(x, y, c) == (if pixel_low(
                before,
                self.spec_threshold(),
                x,
                y,
            ) {
                0u8
            } else {
                255u8
            })
    }

    fn convert_to_binary(&self, image: &mut RgbRaster)
    {
        let w = image.width();
        let h = image.height();
        let ghost before = *image;
        let ghost t = self.spec_threshold();

        let mut y: usize = 0;
        while y < h
            invariant
                y <= h,
                image.wf(),
                w == image.spec_width(),
                h == image.spec_height(),
                before.wf(),
                w == before.spec_width(),
                h == before.spec_height(),
                t == self.spec_threshold(),
                forall|a: int, b: int, c: int|
                    0 <= a < w && 0 <= b < y && 0 <= c < 3 ==> #[trigger] image.spec_channel(
                        a,
                        b,
                        c,
                    ) == (if pixel_low(before, t, a, b) {
                        0u8
                    } else {
                        255u8
                    }),
                forall|a: int, b: int, c: int|
                    0 <= a < w && y <= b < h && 0 <= c < 3 ==> #[trigger] image.spec_channel(
                        a,
                        b,
                        c,
                    ) == before.spec_channel(a, b, c),
            decreases h - y,
        {
            let mut x: usize = 0;
            while x < w
                invariant
                    x <= w,
                    y < h,
                    image.wf(),
                    w == image.spec_width(),
                    h == image.spec_height(),
                    before.wf(),
                    w == before.spec_width(),
                    h == before.spec_height(),
                    t == self.spec_threshold(),
                    forall|a: int, b: int, c: int|
                        0 <= a < w && 0 <= b < y && 0 <= c < 3 ==> #[trigger] image.spec_channel(
                            a,
                            b,
                            c,
                        ) == (if pixel_low(before, t, a, b) {
                            0u8
                        } else {
                            255u8
                        }),
                    forall|a: int, c: int|
                        0 <= a < x && 0 <= c < 3 ==> #[trigger] image.spec_channel(
                            a,
                            y as int,
                            c,
                        ) == (if pixel_low(before, t, a, y as int) {
                            0u8
                        } else {
                            255u8
                        }),
                    forall|a: int, c: int|
                        x <= a < w && 0 <= c < 3 ==> #[trigger] image.spec_channel(a, y as int, c)
                            == before.spec_channel(a, y as int, c),
                    forall|a: int, b: int, c: int|
                        0 <= a < w && y < b < h && 0 <= c < 3 ==> #[trigger] image.spec_channel(
                            a,
                            b,
                            c,
                        ) == before.spec_channel(a, b, c),
                decreases w - x,
            {
                let c0 = image.get_channel(x, y, 0);
                let c1 = image.get_channel(x, y, 1);
                let c2 = image.get_channel(x, y, 2);
                let is_low = (c0 as u32) <= self.threshold && (c1 as u32) <= self.threshold && (c2
                    as u32) <= self.threshold;
                proof {
                    assert(image.spec_channel(x as int, y as int, 0) == before.spec_channel(
                        x as int,
                        y as int,
                        0,
                    ));
                    assert(image.spec_channel(x as int, y as int, 1) == before.spec_channel(
                        x as int,
                        y as int,
                        1,
                    ));
                    assert(image.spec_channel(x as int, y as int, 2) == before.spec_channel(
                        x as int,
                        y as int,
                        2,
                    ));
                    assert(is_low == pixel_low(before, t, x as int, y as int)) by {
                        if is_low {
                            assert forall|c: int| 0 <= c < 3 implies #[trigger] before
                                .spec_channel(x as int, y as int, c) <= t by {
                                if c == 0 {
                                } else if c == 1 {
                                } else {
                                    assert(c == 2);
                                }
                            };
                        }
                    };
                }
                let v: u8 = if is_low {
                    0
                } else {
                    255
                };
                image.set_channel(x, y, 0, v);
                image.set_channel(x, y, 1, v);
                image.set_channel(x, y, 2, v);
                x = x + 1;
            }
            y = y + 1;
        }
    }
}

} // verus!
