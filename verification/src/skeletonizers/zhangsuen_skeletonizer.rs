//! Skeletonization by the Zhang-Suen two-substep parallel thinning scheme.
//!
//! The grid is first copied into a padded grid with a one-cell background
//! border, which removes boundary special cases from the hot loop. Each outer
//! round runs substep one and then substep two; a substep scans all interior
//! pixels, marks the removable ones, and only then clears every marked pixel
//! at once, so removal order cannot matter. The round is repeated until one
//! full round removes nothing; the result is then copied back, cropped.

use vstd::prelude::*;

use crate::binary_image::BinaryImage;
use crate::binary_image::PixelColor;
use crate::grid::grid_count;
use crate::grid::in_grid;
use crate::grid::lemma_grid_count_le;
use crate::grid::lemma_grid_count_update;
use crate::grid::lemma_row_count_update;
use crate::skeletonizers::Skeletonizer;
use crate::skeletonizers::connectivity::fg_at;
use crate::skeletonizers::connectivity::ord;

verus! {

pub struct ZhangSuenSkeletonizer;

/// Which of the two substeps of a round is running. They differ only in the
/// directional condition that protects south-east (substep one) or
/// north-west (substep two) contour pixels.
#[derive(Clone, Copy, PartialEq, Eq, Structural)]
pub enum SubStep {
    One,
    Two,
}

/// The number of foreground cells among the 8 neighbors of `(x, y)`,
/// out-of-bounds positions counting as background.
pub open spec fn zs_neighbour_count(
    cells: Seq<Seq<PixelColor>>,
    fgc: PixelColor,
    x: int,
    y: int,
) -> int {
    (if fg_at(cells, fgc, x, y - 1) { 1int } else { 0int })
        + (if fg_at(cells, fgc, x + 1, y - 1) { 1int } else { 0int })
        + (if fg_at(cells, fgc, x + 1, y) { 1int } else { 0int })
        + (if fg_at(cells, fgc, x + 1, y + 1) { 1int } else { 0int })
        + (if fg_at(cells, fgc, x, y + 1) { 1int } else { 0int })
        + (if fg_at(cells, fgc, x - 1, y + 1) { 1int } else { 0int })
        + (if fg_at(cells, fgc, x - 1, y) { 1int } else { 0int })
        + (if fg_at(cells, fgc, x - 1, y - 1) { 1int } else { 0int })
}

/// The number of background-to-foreground transitions met when walking the 8
/// neighbors of `(x, y)` clockwise from north and back to north.
pub open spec fn zs_transition_count(
    cells: Seq<Seq<PixelColor>>,
    fgc: PixelColor,
    x: int,
    y: int,
) -> int {
    let n = fg_at(cells, fgc, x, y - 1);
    let ne = fg_at(cells, fgc, x + 1, y - 1);
    let e = fg_at(cells, fgc, x + 1, y);
    let se = fg_at(cells, fgc, x + 1, y + 1);
    let s = fg_at(cells, fgc, x, y + 1);
    let sw = fg_at(cells, fgc, x - 1, y + 1);
    let w = fg_at(cells, fgc, x - 1, y);
    let nw = fg_at(cells, fgc, x - 1, y - 1);
    (if !n && ne { 1int } else { 0int })
        + (if !ne && e { 1int } else { 0int })
        + (if !e && se { 1int } else { 0int })
        + (if !se && s { 1int } else { 0int })
        + (if !s && sw { 1int } else { 0int })
        + (if !sw && w { 1int } else { 0int })
        + (if !w && nw { 1int } else { 0int })
        + (if !nw && n { 1int } else { 0int })
}

/// The directional guard of the substep: a pixel meeting it is kept.
pub open spec fn zs_guard(
    cells: Seq<Seq<PixelColor>>,
    fgc: PixelColor,
    sub: SubStep,
    x: int,
    y: int,
) -> bool {
    match sub {
        SubStep::One => fg_at(cells, fgc, x, y + 1) && fg_at(cells, fgc, x + 1, y) && (fg_at(
            cells,
            fgc,
            x,
            y - 1,
        ) || fg_at(cells, fgc, x - 1, y)),
        SubStep::Two => fg_at(cells, fgc, x, y - 1) && fg_at(cells, fgc, x - 1, y) && (fg_at(
            cells,
            fgc,
            x,
            y + 1,
        ) || fg_at(cells, fgc, x + 1, y)),
    }
}

/// The substep removes the pixel at `(x, y)`.
pub open spec fn zs_removable(
    cells: Seq<Seq<PixelColor>>,
    fgc: PixelColor,
    sub: SubStep,
    x: int,
    y: int,
) -> bool {
    &&& fg_at(cells, fgc, x, y)
    &&& 2 <= zs_neighbour_count(cells, fgc, x, y) <= 6
    &&& zs_transition_count(cells, fgc, x, y) == 1
    &&& !zs_guard(cells, fgc, sub, x, y)
}

/// `cells` surrounded by a one-cell border of `bgc`.
pub open spec fn padded(
    cells: Seq<Seq<PixelColor>>,
    bgc: PixelColor,
    w: int,
    h: int,
) -> Seq<Seq<PixelColor>> {
    Seq::new(
        (h + 2) as nat,
        |y: int|
            Seq::new(
                (w + 2) as nat,
                |x: int|
                    if 1 <= x <= w && 1 <= y <= h {
                        cells[y - 1][x - 1]
                    } else {
                        bgc
                    },
            ),
    )
}

/// Neither substep finds anything to remove on the padded copy of `img`:
/// the image is a fixpoint of a Zhang-Suen round.
pub open spec fn zs_settled(img: BinaryImage) -> bool {
    let p = padded(img.cells(), img.bg(), img.spec_width(), img.spec_height());
    forall|x: int, y: int|
        1 <= x <= img.spec_width() && 1 <= y <= img.spec_height() ==> !(#[trigger] zs_removable(
            p,
            img.fg(),
            SubStep::One,
            x,
            y,
        )) && !zs_removable(p, img.fg(), SubStep::Two, x, y)
}

/// A cell of `s[..k]` equals `(a, b)`.
spec fn marked_before(s: Seq<(usize, usize)>, k: int, a: int, b: int) -> bool {
    exists|i: int| 0 <= i < k && (#[trigger] s[i]).0 == a && s[i].1 == b
}

impl ZhangSuenSkeletonizer {
    pub fn new() -> (r: Self)
    {
        ZhangSuenSkeletonizer {}
    }

    /// The number of foreground cells among the 8 neighbors of the interior
    /// pixel `(x, y)`.
    pub fn count_black_neighbours(image: &BinaryImage, x: usize, y: usize) -> (r: u32)
        requires
            image.wf(),
            1 <= x < image.spec_width() - 1,
            1 <= y < image.spec_height() - 1,
            image.spec_width() <= usize::MAX - 2,
            image.spec_height() <= usize::MAX - 2,
        ensures
            r == zs_neighbour_count(image.cells(), image.fg(), x as int, y as int),
    {
        let mut count: u32 = 0;
        if image.is_fg(x, y - 1) {
            count = count + 1;
        }
        if image.is_fg(x + 1, y - 1) {
            count = count + 1;
        }
        if image.is_fg(x + 1, y) {
            count = count + 1;
        }
        if image.is_fg(x + 1, y + 1) {
            count = count + 1;
        }
        if image.is_fg(x, y + 1) {
            count = count + 1;
        }
        if image.is_fg(x - 1, y + 1) {
            count = count + 1;
        }
        if image.is_fg(x - 1, y) {
            count = count + 1;
        }
        if image.is_fg(x - 1, y - 1) {
            count = count + 1;
        }
        count
    }

    /// Whether the neighbor of `(x, y)` at window offset `(dx - 1, dy - 1)`
    /// is an in-bounds foreground cell.
    fn neighbour_fg(image: &BinaryImage, x: usize, y: usize, dx: usize, dy: usize) -> (r: bool)
        requires
            image.wf(),
            x < image.spec_width(),
            y < image.spec_height(),
            image.spec_width() <= usize::MAX - 2,
            image.spec_height() <= usize::MAX - 2,
            dx < 3,
            dy < 3,
        ensures
            r == fg_at(image.cells(), image.fg(), x + dx - 1, y + dy - 1),
    {
        let nx = x + dx;
        let ny = y + dy;
        nx >= 1 && nx - 1 < image.width() && ny >= 1 && ny - 1 < image.height() && image.is_fg(
            nx - 1,
            ny - 1,
        )
    }

    /// The number of background-to-foreground transitions around `(x, y)`,
    /// walking the 8 neighbors clockwise from north and back to the start;
    /// out-of-bounds neighbors count as background.
    pub fn count_transitions(image: &BinaryImage, x: usize, y: usize) -> (r: u32)
        requires
            image.wf(),
            x < image.spec_width(),
            y < image.spec_height(),
            image.spec_width() <= usize::MAX - 2,
            image.spec_height() <= usize::MAX - 2,
        ensures
            r == zs_transition_count(image.cells(), image.fg(), x as int, y as int),
    {
        let n = Self::neighbour_fg(image, x, y, 1, 0);
        let ne = Self::neighbour_fg(image, x, y, 2, 0);
        let e = Self::neighbour_fg(image, x, y, 2, 1);
        let se = Self::neighbour_fg(image, x, y, 2, 2);
        let s = Self::neighbour_fg(image, x, y, 1, 2);
        let sw = Self::neighbour_fg(image, x, y, 0, 2);
        let w = Self::neighbour_fg(image, x, y, 0, 1);
        let nw = Self::neighbour_fg(image, x, y, 0, 0);
        let mut count: u32 = 0;
        if !n && ne {
            count = count + 1;
        }
        if !ne && e {
            count = count + 1;
        }
        if !e && se {
            count = count + 1;
        }
        if !se && s {
            count = count + 1;
        }
        if !s && sw {
            count = count + 1;
        }
        if !sw && w {
            count = count + 1;
        }
        if !w && nw {
            count = count + 1;
        }
        if !nw && n {
            count = count + 1;
        }
        count
    }

    /// One substep: scan all interior pixels of `image`, mark the removable
    /// ones, then clear every marked pixel at once. Returns how many pixels
    /// were removed; zero exactly when no interior pixel was removable.
    #[verifier::rlimit(100)]
    fn step(image: &mut BinaryImage, sub: SubStep) -> (r: u32)
        requires
            old(image).wf(),
            old(image).spec_width() <= usize::MAX - 2,
            old(image).spec_height() <= usize::MAX - 2,
            old(image).spec_width() * old(image).spec_height() <= u32::MAX,
        ensures
            final(image).wf(),
            final(image).spec_width() == old(image).spec_width(),
            final(image).spec_height() == old(image).spec_height(),
            final(image).bg() == old(image).bg(),
            final(image).fg() == old(image).fg(),
            forall|a: int, b: int|
                fg_at(final(image).cells(), final(image).fg(), a, b) ==> fg_at(
                    old(image).cells(),
                    old(image).fg(),
                    a,
                    b,
                ),
            grid_count(final(image).cells(), final(image).fg()) + r == grid_count(
                old(image).cells(),
                old(image).fg(),
            ),
            r == 0 ==> final(image).cells() == old(image).cells(),
            (r == 0) <==> (forall|a: int, b: int|
                1 <= a < old(image).spec_width() - 1 && 1 <= b < old(image).spec_height() - 1
                    ==> !(#[trigger] zs_removable(old(image).cells(), old(image).fg(), sub, a, b))),
    {
        let w = image.width();
        let h = image.height();
        let ghost cells0 = image.cells();
        let ghost fgc = image.fg();
        let mut marked: Vec<(usize, usize)> = Vec::new();

        let mut y: usize = 1;
        proof {
            assert(w <= w * h) by (nonlinear_arith)
                requires w >= 0 && h >= 1;
        }
        while y < h - 1
            invariant
                1 <= y,
                y <= h,
                image.wf(),
                *image == *old(image),
                w == image.spec_width(),
                h == image.spec_height(),
                cells0 == image.cells(),
                fgc == image.fg(),
                w <= usize::MAX - 2,
                h <= usize::MAX - 2,
                w * h <= u32::MAX,
                marked@.len() <= y * w,
                y * w <= w * h,
                forall|i: int|
                    0 <= i < marked@.len() ==> zs_removable(
                        cells0,
                        fgc,
                        sub,
                        (#[trigger] marked@[i]).0 as int,
                        marked@[i].1 as int,
                    ),
                forall|i: int|
                    0 <= i < marked@.len() ==> 1 <= (#[trigger] marked@[i]).0 < w - 1 && 1 <= marked@[i].1
                        < h - 1,
                forall|i: int, j: int|
                    0 <= i < j < marked@.len() ==> ord(w as int, (#[trigger] marked@[i]).0 as int, marked@[i].1 as int)
                        < ord(w as int, (#[trigger] marked@[j]).0 as int, marked@[j].1 as int),
                forall|i: int|
                    0 <= i < marked@.len() ==> ord(
                        w as int,
                        (#[trigger] marked@[i]).0 as int,
                        marked@[i].1 as int,
                    ) < y * w,
                marked@.len() == 0 ==> (forall|a: int, b: int|
                    1 <= a < w - 1 && 1 <= b < y ==> !(#[trigger] zs_removable(
                        cells0,
                        fgc,
                        sub,
                        a,
                        b,
                    ))),
            decreases h - y,
        {
            let mut x: usize = 1;
            proof {
                assert(y * w + w == (y + 1) * w) by (nonlinear_arith);
                assert((y + 1) * w <= h * w) by (nonlinear_arith)
                    requires y + 1 <= h && w >= 0;
                assert(h * w == w * h) by (nonlinear_arith);
                assert(y * w >= y) by (nonlinear_arith)
                    requires y >= 0 && w >= 1;
            }
            while x < w - 1
                invariant
                    1 <= x,
                    x <= w,
                    1 <= y < h - 1,
                    image.wf(),
                    *image == *old(image),
                    w == image.spec_width(),
                    h == image.spec_height(),
                    cells0 == image.cells(),
                    fgc == image.fg(),
                    w <= usize::MAX - 2,
                    h <= usize::MAX - 2,
                    w * h <= u32::MAX,
                    y * w + w <= w * h,
                    marked@.len() <= y * w + x,
                    forall|i: int|
                        0 <= i < marked@.len() ==> zs_removable(
                            cells0,
                            fgc,
                            sub,
                            (#[trigger] marked@[i]).0 as int,
                            marked@[i].1 as int,
                        ),
                    forall|i: int|
                        0 <= i < marked@.len() ==> 1 <= (#[trigger] marked@[i]).0 < w - 1 && 1
                            <= marked@[i].1 < h - 1,
                    forall|i: int, j: int|
                        0 <= i < j < marked@.len() ==> ord(
                            w as int,
                            (#[trigger] marked@[i]).0 as int,
                            marked@[i].1 as int,
                        ) < ord(w as int, (#[trigger] marked@[j]).0 as int, marked@[j].1 as int),
                    forall|i: int|
                        0 <= i < marked@.len() ==> ord(
                            w as int,
                            (#[trigger] marked@[i]).0 as int,
                            marked@[i].1 as int,
                        ) < y * w + x,
                    marked@.len() == 0 ==> (forall|a: int, b: int|
                        1 <= a < w - 1 && ((1 <= b < y) || (b == y && 1 <= a < x)) ==> !(
                        #[trigger] zs_removable(cells0, fgc, sub, a, b))),
                decreases w - x,
            {
                if !image.is_bg(x, y) {
                    let black_count = Self::count_black_neighbours(image, x, y);
                    if black_count >= 2 && black_count <= 6 {
                        if Self::count_transitions(image, x, y) == 1 {
                            let guarded = if matches!(sub, SubStep::One) {
                                image.is_fg(x, y + 1) && image.is_fg(x + 1, y) && (image.is_fg(
                                    x,
                                    y - 1,
                                ) || image.is_fg(x - 1, y))
                            } else {
                                image.is_fg(x, y - 1) && image.is_fg(x - 1, y) && (image.is_fg(
                                    x,
                                    y + 1,
                                ) || image.is_fg(x + 1, y))
                            };
                            if !guarded {
                                proof {
                                    assert(zs_removable(cells0, fgc, sub, x as int, y as int));
                                }
                                marked.push((x, y));
                            }
                        }
                    }
                }
                x = x + 1;
            }
            proof {
                assert(y * w + w == (y + 1) * w) by (nonlinear_arith);
            }
            y = y + 1;
        }

        proof {
            if marked@.len() == 0 {
                assert forall|a: int, b: int|
                    1 <= a < w - 1 && 1 <= b < h - 1 implies !(#[trigger] zs_removable(
                    cells0,
                    fgc,
                    sub,
                    a,
                    b,
                )) by {
                    assert(b < y);
                };
            }
            assert(y * w <= w * h) by (nonlinear_arith)
                requires y <= h && w >= 0;
        }

        let count = marked.len();
        let mut k: usize = 0;
        while k < count
            invariant
                k <= count,
                count == marked@.len(),
                image.wf(),
                image.spec_width() == w,
                image.spec_height() == h,
                image.bg() == old(image).bg(),
                image.fg() == fgc,
                cells0 == old(image).cells(),
                count <= w * h,
                w * h <= u32::MAX,
                forall|i: int|
                    0 <= i < marked@.len() ==> zs_removable(
                        cells0,
                        fgc,
                        sub,
                        (#[trigger] marked@[i]).0 as int,
                        marked@[i].1 as int,
                    ),
                forall|i: int|
                    0 <= i < marked@.len() ==> 1 <= (#[trigger] marked@[i]).0 < w - 1 && 1
                        <= marked@[i].1 < h - 1,
                forall|i: int, j: int|
                    0 <= i < j < marked@.len() ==> ord(
                        w as int,
                        (#[trigger] marked@[i]).0 as int,
                        marked@[i].1 as int,
                    ) < ord(w as int, (#[trigger] marked@[j]).0 as int, marked@[j].1 as int),
                forall|a: int, b: int|
                    0 <= a < w && 0 <= b < h ==> #[trigger] image.cells()[b][a] == (if marked_before(
                        marked@,
                        k as int,
                        a,
                        b,
                    ) {
                        image.bg()
                    } else {
                        cells0[b][a]
                    }),
                grid_count(image.cells(), fgc) + k == grid_count(cells0, fgc),
            decreases count - k,
        {
            let p = marked[k];
            let px = p.0;
            let py = p.1;
            let ghost cells_pre = image.cells();
            proof {
                // no earlier mark hits the same cell, so it is still foreground
                assert(!marked_before(marked@, k as int, px as int, py as int)) by {
                    if marked_before(marked@, k as int, px as int, py as int) {
                        let i = choose|i: int|
                            0 <= i < k && (#[trigger] marked@[i]).0 == px as int && marked@[i].1
                                == py as int;
                        assert(ord(w as int, marked@[i].0 as int, marked@[i].1 as int) < ord(
                            w as int,
                            px as int,
                            py as int,
                        ));
                    }
                };
                assert(image.cells()[py as int][px as int] == cells0[py as int][px as int]);
                assert(fg_at(cells0, fgc, px as int, py as int));
            }
            image.set_bg(px, py);
            proof {
                lemma_grid_count_update(
                    cells_pre,
                    py as int,
                    cells_pre[py as int].update(px as int, image.bg()),
                    fgc,
                );
                lemma_row_count_update(cells_pre[py as int], px as int, image.bg(), fgc);
                assert forall|a: int, b: int| 0 <= a < w && 0 <= b < h implies #[trigger] image
                    .cells()[b][a] == (if marked_before(marked@, k + 1, a, b) {
                    image.bg()
                } else {
                    cells0[b][a]
                }) by {
                    if a == px as int && b == py as int {
                        assert(marked@[k as int] == (px, py));
                        assert(marked_before(marked@, k + 1, a, b));
                    } else {
                        assert(image.cells()[b][a] == cells_pre[b][a]);
                        if marked_before(marked@, k + 1, a, b) {
                            let i = choose|i: int|
                                0 <= i < k + 1 && (#[trigger] marked@[i]).0 == a && marked@[i].1
                                    == b;
                            assert(i < k);
                            assert(marked_before(marked@, k as int, a, b));
                        } else {
                            assert(!marked_before(marked@, k as int, a, b));
                        }
                    }
                };
            }
            k = k + 1;
        }

        proof {
            if count == 0 {
                assert forall|a: int, b: int|
                    0 <= a < w && 0 <= b < h implies image.cells()[b][a] == cells0[b][a] by {
                    assert(!marked_before(marked@, 0, a, b));
                };
                assert(image.cells() =~~= cells0);
            } else {
                assert(marked@[0].0 as int >= 1);
                assert(zs_removable(cells0, fgc, sub, marked@[0].0 as int, marked@[0].1 as int));
            }
            assert forall|a: int, b: int|
                fg_at(image.cells(), fgc, a, b) implies fg_at(cells0, fgc, a, b) by {
                if in_grid(image.cells(), a, b) && image.cells()[b][a] == fgc {
                    if marked_before(marked@, count as int, a, b) {
                        assert(image.cells()[b][a] == image.bg());
                    }
                }
            };
        }
        #[verifier::truncate]
        let r = count as u32;
        proof {
            assert(count <= u32::MAX);
        }
        r
    }

    fn step_one(image: &mut BinaryImage) -> (r: u32)
        requires
            old(image).wf(),
            old(image).spec_width() <= usize::MAX - 2,
            old(image).spec_height() <= usize::MAX - 2,
            old(image).spec_width() * old(image).spec_height() <= u32::MAX,
        ensures
            final(image).wf(),
            final(image).spec_width() == old(image).spec_width(),
            final(image).spec_height() == old(image).spec_height(),
            final(image).bg() == old(image).bg(),
            final(image).fg() == old(image).fg(),
            forall|a: int, b: int|
                fg_at(final(image).cells(), final(image).fg(), a, b) ==> fg_at(
                    old(image).cells(),
                    old(image).fg(),
                    a,
                    b,
                ),
            grid_count(final(image).cells(), final(image).fg()) + r == grid_count(
                old(image).cells(),
                old(image).fg(),
            ),
            r == 0 ==> final(image).cells() == old(image).cells(),
            (r == 0) <==> (forall|a: int, b: int|
                1 <= a < old(image).spec_width() - 1 && 1 <= b < old(image).spec_height() - 1
                    ==> !(#[trigger] zs_removable(
                    old(image).cells(),
                    old(image).fg(),
                    SubStep::One,
                    a,
                    b,
                ))),
    {
        Self::step(image, SubStep::One)
    }

    fn step_two(image: &mut BinaryImage) -> (r: u32)
        requires
            old(image).wf(),
            old(image).spec_width() <= usize::MAX - 2,
            old(image).spec_height() <= usize::MAX - 2,
            old(image).spec_width() * old(image).spec_height() <= u32::MAX,
        ensures
            final(image).wf(),
            final(image).spec_width() == old(image).spec_width(),
            final(image).spec_height() == old(image).spec_height(),
            final(image).bg() == old(image).bg(),
            final(image).fg() == old(image).fg(),
            forall|a: int, b: int|
                fg_at(final(image).cells(), final(image).fg(), a, b) ==> fg_at(
                    old(image).cells(),
                    old(image).fg(),
                    a,
                    b,
                ),
            grid_count(final(image).cells(), final(image).fg()) + r == grid_count(
                old(image).cells(),
                old(image).fg(),
            ),
            r == 0 ==> final(image).cells() == old(image).cells(),
            (r == 0) <==> (forall|a: int, b: int|
                1 <= a < old(image).spec_width() - 1 && 1 <= b < old(image).spec_height() - 1
                    ==> !(#[trigger] zs_removable(
                    old(image).cells(),
                    old(image).fg(),
                    SubStep::Two,
                    a,
                    b,
                ))),
    {
        Self::step(image, SubStep::Two)
    }
}

} // verus!

// The process implementation: pad, iterate rounds to the fixpoint, crop.
verus! {

impl Skeletonizer for ZhangSuenSkeletonizer {
    /// A returned grid is a fixpoint of a Zhang-Suen round.
    open spec fn done(&self, img: BinaryImage) -> bool {
        zs_settled(img)
    }

    /// On a fixpoint grid the algorithm removes nothing.
    open spec fn settled(&self, img: BinaryImage) -> bool {
        zs_settled(img)
    }

    #[verifier::rlimit(100)]
    fn process(&self, image: &mut BinaryImage) {
        let w = image.width();
        let h = image.height();
        let bg = image.get_bg_color();
        let ghost cells0 = image.cells();
        let ghost fgc = image.fg();
        let ghost padded0 = padded(cells0, image.bg(), w as int, h as int);

        proof {
            assert((w + 2) * 3 <= (w + 2) * (h + 2)) by (nonlinear_arith)
                requires w + 2 >= 0 && h + 2 >= 3;
            assert((h + 2) * 3 <= (w + 2) * (h + 2)) by (nonlinear_arith)
                requires h + 2 >= 0 && w + 2 >= 3;
            assert((h + 2) * (w + 2) == (w + 2) * (h + 2)) by (nonlinear_arith);
        }

        let mut outer_image = BinaryImage::new(w + 2, h + 2, bg);

        // copy the image into the padded working grid
        let mut y: usize = 0;
        while y < h
            invariant
                y <= h,
                image.wf(),
                *image == *old(image),
                w == image.spec_width(),
                h == image.spec_height(),
                cells0 == image.cells(),
                fgc == image.fg(),
                bg == image.bg(),
                w + 2 <= usize::MAX - 2,
                h + 2 <= usize::MAX - 2,
                (w + 2) * (h + 2) <= u32::MAX,
                padded0 == padded(cells0, bg, w as int, h as int),
                outer_image.wf(),
                outer_image.spec_width() == w + 2,
                outer_image.spec_height() == h + 2,
                outer_image.bg() == bg,
                outer_image.fg() == fgc,
                forall|a: int, b: int|
                    0 <= a < w + 2 && 0 <= b < h + 2 ==> #[trigger] outer_image.cells()[b][a] == (
                    if 1 <= a <= w && 1 <= b <= y {
                        cells0[b - 1][a - 1]
                    } else {
                        bg
                    }),
            decreases h - y,
        {
            let mut x: usize = 0;
            while x < w
                invariant
                    x <= w,
                    y < h,
                    image.wf(),
                    *image == *old(image),
                    w == image.spec_width(),
                    h == image.spec_height(),
                    cells0 == image.cells(),
                    fgc == image.fg(),
                    bg == image.bg(),
                    w + 2 <= usize::MAX - 2,
                    h + 2 <= usize::MAX - 2,
                    outer_image.wf(),
                    outer_image.spec_width() == w + 2,
                    outer_image.spec_height() == h + 2,
                    outer_image.bg() == bg,
                    outer_image.fg() == fgc,
                    forall|a: int, b: int|
                        0 <= a < w + 2 && 0 <= b < h + 2 ==> #[trigger] outer_image.cells()[b][a]
                            == (if (1 <= a <= w && 1 <= b <= y) || (b == y + 1 && 1 <= a <= x) {
                            cells0[b - 1][a - 1]
                        } else {
                            bg
                        }),
                decreases w - x,
            {
                if image.is_fg(x, y) {
                    outer_image.set_fg(x + 1, y + 1);
                }
                x = x + 1;
            }
            y = y + 1;
        }
        proof {
            assert(outer_image.cells() =~~= padded0);
        }

        // iterate rounds until one removes nothing
        loop
            invariant
                image.wf(),
                *image == *old(image),
                w == image.spec_width(),
                h == image.spec_height(),
                cells0 == image.cells(),
                fgc == image.fg(),
                bg == image.bg(),
                w + 2 <= usize::MAX - 2,
                h + 2 <= usize::MAX - 2,
                (w + 2) * (h + 2) <= u32::MAX,
                padded0 == padded(cells0, bg, w as int, h as int),
                outer_image.wf(),
                outer_image.spec_width() == w + 2,
                outer_image.spec_height() == h + 2,
                outer_image.bg() == bg,
                outer_image.fg() == fgc,
                forall|a: int, b: int|
                    fg_at(outer_image.cells(), fgc, a, b) ==> fg_at(padded0, fgc, a, b),
                zs_settled(*old(image)) ==> outer_image.cells() == padded0,
            ensures
                outer_image.wf(),
                outer_image.spec_width() == w + 2,
                outer_image.spec_height() == h + 2,
                outer_image.bg() == bg,
                outer_image.fg() == fgc,
                forall|a: int, b: int|
                    fg_at(outer_image.cells(), fgc, a, b) ==> fg_at(padded0, fgc, a, b),
                zs_settled(*old(image)) ==> outer_image.cells() == padded0,
                forall|a: int, b: int|
                    1 <= a < w + 1 && 1 <= b < h + 1 ==> !(#[trigger] zs_removable(
                        outer_image.cells(),
                        fgc,
                        SubStep::One,
                        a,
                        b,
                    )) && !zs_removable(outer_image.cells(), fgc, SubStep::Two, a, b),
            decreases grid_count(outer_image.cells(), fgc),
        {
            proof {
                lemma_grid_count_le(
                    outer_image.cells(),
                    fgc,
                    (w + 2) as int,
                    (h + 2) as int,
                );
            }
            let ghost outer_pre = outer_image.cells();
            let c1 = Self::step_one(&mut outer_image);
            let ghost outer_mid = outer_image.cells();
            let c2 = Self::step_two(&mut outer_image);
            proof {
                assert(c1 + c2 <= (w + 2) * (h + 2));
                if zs_settled(*old(image)) {
                    assert(outer_pre == padded0);
                    assert forall|a: int, b: int|
                        1 <= a < w + 1 && 1 <= b < h + 1 implies !(#[trigger] zs_removable(
                        outer_pre,
                        fgc,
                        SubStep::One,
                        a,
                        b,
                    )) by {
                        assert(!zs_removable(padded0, fgc, SubStep::One, a, b));
                    };
                    assert(c1 == 0);
                    assert(outer_mid == outer_pre);
                    assert forall|a: int, b: int|
                        1 <= a < w + 1 && 1 <= b < h + 1 implies !(#[trigger] zs_removable(
                        outer_mid,
                        fgc,
                        SubStep::Two,
                        a,
                        b,
                    )) by {
                        assert(!zs_removable(padded0, fgc, SubStep::One, a, b));
                        assert(!zs_removable(padded0, fgc, SubStep::Two, a, b));
                    };
                    assert(c2 == 0);
                    assert(outer_image.cells() == padded0);
                }
            }
            if c1 + c2 == 0 {
                proof {
                    assert(c1 == 0 && c2 == 0);
                    assert(outer_mid == outer_pre);
                    assert(outer_image.cells() == outer_pre);
                }
                break;
            }
        }

        // copy the cropped result back
        let mut cy: usize = 0;
        while cy < h
            invariant
                cy <= h,
                image.wf(),
                w == image.spec_width(),
                h == image.spec_height(),
                image.bg() == bg,
                image.fg() == fgc,
                cells0 == old(image).cells(),
                bg == old(image).bg(),
                fgc == old(image).fg(),
                w + 2 <= usize::MAX - 2,
                h + 2 <= usize::MAX - 2,
                padded0 == padded(cells0, bg, w as int, h as int),
                outer_image.wf(),
                outer_image.spec_width() == w + 2,
                outer_image.spec_height() == h + 2,
                outer_image.bg() == bg,
                outer_image.fg() == fgc,
                forall|a: int, b: int|
                    fg_at(outer_image.cells(), fgc, a, b) ==> fg_at(padded0, fgc, a, b),
                zs_settled(*old(image)) ==> outer_image.cells() == padded0,
                forall|a: int, b: int|
                    1 <= a < w + 1 && 1 <= b < h + 1 ==> !(#[trigger] zs_removable(
                        outer_image.cells(),
                        fgc,
                        SubStep::One,
                        a,
                        b,
                    )) && !zs_removable(outer_image.cells(), fgc, SubStep::Two, a, b),
                forall|a: int, b: int|
                    0 <= a < w && 0 <= b < cy ==> #[trigger] image.cells()[b][a]
                        == outer_image.cells()[b + 1][a + 1],
                forall|a: int, b: int|
                    0 <= a < w && cy <= b < h ==> #[trigger] image.cells()[b][a] == cells0[b][a],
            decreases h - cy,
        {
            let mut cx: usize = 0;
            while cx < w
                invariant
                    cx <= w,
                    cy < h,
                    image.wf(),
                    w == image.spec_width(),
                    h == image.spec_height(),
                    image.bg() == bg,
                    image.fg() == fgc,
                    cells0 == old(image).cells(),
                    w + 2 <= usize::MAX - 2,
                    h + 2 <= usize::MAX - 2,
                    outer_image.wf(),
                    outer_image.spec_width() == w + 2,
                    outer_image.spec_height() == h + 2,
                    outer_image.bg() == bg,
                    outer_image.fg() == fgc,
                    forall|a: int, b: int|
                        0 <= a < w && 0 <= b < cy ==> #[trigger] image.cells()[b][a]
                            == outer_image.cells()[b + 1][a + 1],
                    forall|a: int|
                        0 <= a < cx ==> #[trigger] image.cells()[cy as int][a]
                            == outer_image.cells()[cy + 1][a + 1],
                    forall|a: int|
                        cx <= a < w ==> #[trigger] image.cells()[cy as int][a]
                            == cells0[cy as int][a],
                    forall|a: int, b: int|
                        0 <= a < w && cy < b < h ==> #[trigger] image.cells()[b][a]
                            == cells0[b][a],
                decreases w - cx,
            {
                if outer_image.is_fg(cx + 1, cy + 1) {
                    image.set_fg(cx, cy);
                } else {
                    image.set_bg(cx, cy);
                }
                cx = cx + 1;
            }
            cy = cy + 1;
        }

        proof {
            let cellsf = image.cells();
            // the working grid is exactly the padded copy of the result
            assert(padded(cellsf, bg, w as int, h as int) =~~= outer_image.cells()) by {
                assert forall|b: int| 0 <= b < h + 2 implies padded(cellsf, bg, w as int, h as int)[b]
                    =~= outer_image.cells()[b] by {
                    assert forall|a: int| 0 <= a < w + 2 implies padded(
                        cellsf,
                        bg,
                        w as int,
                        h as int,
                    )[b][a] == outer_image.cells()[b][a] by {
                        if 1 <= a <= w && 1 <= b <= h {
                            assert(cellsf[b - 1][a - 1] == outer_image.cells()[b][a]);
                        } else {
                            assert(!fg_at(padded0, fgc, a, b));
                            assert(!fg_at(outer_image.cells(), fgc, a, b));
                            assert(outer_image.cells()[b][a] == bg);
                        }
                    };
                };
            };
            assert(zs_settled(*image));
            if zs_settled(*old(image)) {
                assert(image.cells() =~~= cells0) by {
                    assert forall|b: int| 0 <= b < h implies image.cells()[b] =~= cells0[b] by {
                        assert forall|a: int| 0 <= a < w implies image.cells()[b][a]
                            == cells0[b][a] by {
                            assert(image.cells()[b][a] == outer_image.cells()[b + 1][a + 1]);
                            assert(outer_image.cells()[b + 1][a + 1] == padded0[b + 1][a + 1]);
                        };
                    };
                };
            }
            assert forall|a: int, b: int|
                fg_at(image.cells(), fgc, a, b) implies fg_at(cells0, fgc, a, b) by {
                if in_grid(image.cells(), a, b) && image.cells()[b][a] == fgc {
                    assert(image.cells()[b][a] == outer_image.cells()[b + 1][a + 1]);
                    assert(fg_at(outer_image.cells(), fgc, a + 1, b + 1));
                    assert(fg_at(padded0, fgc, a + 1, b + 1));
                    assert(padded0[b + 1][a + 1] == cells0[b][a]);
                }
            };
        }
    }
}

} // verus!
