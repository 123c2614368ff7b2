//! Skeletonization by Rosenfeld border erosion, parameterized by the
//! adjacency mode.
//!
//! Each outer round erodes the four borders in a fixed order: North, South,
//! West, East. A directional pass scans all pixels in row-major order and
//! removes a foreground pixel when its neighbor on the pass's side is
//! background, it keeps at least two live neighbors, and it is not a local
//! articulation point. Removal is immediate, but a pixel removed earlier in
//! the same pass still counts as foreground when later pixels classify their
//! neighbors: a per-pass scratch matrix of removed pixels makes neighbor
//! classification see the state the pass started from, while the
//! articulation test always sees the live grid.

use vstd::prelude::*;

use crate::binary_image::BinaryImage;
use crate::binary_image::PixelColor;
use crate::bool_matrix::BoolMatrix;
use crate::grid::grid_count;
use crate::grid::in_grid;
use crate::grid::lemma_grid_count_le;
use crate::grid::rect;
use crate::grid::lemma_grid_count_update;
use crate::grid::lemma_row_count_update;
use crate::skeletonizers::AdjacencyMode;
use crate::skeletonizers::Skeletonizer;
use crate::skeletonizers::is_articulation;
use crate::skeletonizers::is_local_articulation_point;
use crate::skeletonizers::connectivity::fg_at;
use crate::skeletonizers::connectivity::mat_at;

verus! {

/// The border a directional pass erodes.
#[derive(Clone, Copy, PartialEq, Eq, Structural, Debug)]
pub enum ProcessingSide {
    North,
    East,
    South,
    West,
}

/// The x offset of the neighbor on the given side.
pub open spec fn side_dx(side: ProcessingSide) -> int {
    match side {
        ProcessingSide::North => 0,
        ProcessingSide::East => 1,
        ProcessingSide::South => 0,
        ProcessingSide::West => -1,
    }
}

/// The y offset of the neighbor on the given side.
pub open spec fn side_dy(side: ProcessingSide) -> int {
    match side {
        ProcessingSide::North => -1,
        ProcessingSide::East => 0,
        ProcessingSide::South => 1,
        ProcessingSide::West => 0,
    }
}

/// A neighbor counts as live when it is in bounds and either still
/// foreground or removed earlier in the current pass.
pub open spec fn ros_nb(
    cells: Seq<Seq<PixelColor>>,
    fgc: PixelColor,
    del: Seq<Seq<bool>>,
    x: int,
    y: int,
) -> bool {
    in_grid(cells, x, y) && (cells[y][x] == fgc || mat_at(del, x, y))
}

/// How many live neighbors the pass counts at `(x, y)` of a grid in its
/// starting state: the three edge neighbors away from the pass's side, plus
/// the four diagonal neighbors under `Eight` adjacency.
pub open spec fn ros_live_count(
    cells: Seq<Seq<PixelColor>>,
    fgc: PixelColor,
    mode: AdjacencyMode,
    side: ProcessingSide,
    x: int,
    y: int,
) -> int {
    (if side != ProcessingSide::North && fg_at(cells, fgc, x, y - 1) { 1int } else { 0int })
        + (if side != ProcessingSide::East && fg_at(cells, fgc, x + 1, y) { 1int } else { 0int })
        + (if side != ProcessingSide::South && fg_at(cells, fgc, x, y + 1) { 1int } else { 0int })
        + (if side != ProcessingSide::West && fg_at(cells, fgc, x - 1, y) { 1int } else { 0int })
        + (if mode == AdjacencyMode::Eight {
            (if fg_at(cells, fgc, x - 1, y - 1) { 1int } else { 0int })
                + (if fg_at(cells, fgc, x + 1, y - 1) { 1int } else { 0int })
                + (if fg_at(cells, fgc, x + 1, y + 1) { 1int } else { 0int })
                + (if fg_at(cells, fgc, x - 1, y + 1) { 1int } else { 0int })
        } else {
            0int
        })
}

/// A directional pass starting from `cells` removes the pixel at `(x, y)`:
/// it is foreground, its side neighbor is not, it keeps at least two live
/// neighbors, and it is not a local articulation point.
pub open spec fn ros_removable(
    cells: Seq<Seq<PixelColor>>,
    fgc: PixelColor,
    bgc: PixelColor,
    mode: AdjacencyMode,
    side: ProcessingSide,
    x: int,
    y: int,
) -> bool {
    &&& fg_at(cells, fgc, x, y)
    &&& !fg_at(cells, fgc, x + side_dx(side), y + side_dy(side))
    &&& ros_live_count(cells, fgc, mode, side, x, y) >= 2
    &&& !is_articulation(cells, fgc, bgc, mode, x, y)
}

/// No directional pass finds anything to remove: the image is a fixpoint of
/// a full North-South-West-East round.
pub open spec fn ros_settled(img: BinaryImage, mode: AdjacencyMode) -> bool {
    &&& forall|x: int, y: int|
        0 <= x < img.spec_width() && 0 <= y < img.spec_height() ==> !(#[trigger] ros_removable(
            img.cells(),
            img.fg(),
            img.bg(),
            mode,
            ProcessingSide::North,
            x,
            y,
        ))
    &&& forall|x: int, y: int|
        0 <= x < img.spec_width() && 0 <= y < img.spec_height() ==> !(#[trigger] ros_removable(
            img.cells(),
            img.fg(),
            img.bg(),
            mode,
            ProcessingSide::South,
            x,
            y,
        ))
    &&& forall|x: int, y: int|
        0 <= x < img.spec_width() && 0 <= y < img.spec_height() ==> !(#[trigger] ros_removable(
            img.cells(),
            img.fg(),
            img.bg(),
            mode,
            ProcessingSide::West,
            x,
            y,
        ))
    &&& forall|x: int, y: int|
        0 <= x < img.spec_width() && 0 <= y < img.spec_height() ==> !(#[trigger] ros_removable(
            img.cells(),
            img.fg(),
            img.bg(),
            mode,
            ProcessingSide::East,
            x,
            y,
        ))
}

pub struct RosenfeldSkeletonizer {
    mode: AdjacencyMode,
}

impl RosenfeldSkeletonizer {
    pub closed spec fn spec_mode(&self) -> AdjacencyMode {
        self.mode
    }

    pub fn new(mode: AdjacencyMode) -> (r: Self)
        ensures
            r.spec_mode() == mode,
    {
        RosenfeldSkeletonizer { mode }
    }

    /// How many progress reports a full run makes at most.
    pub fn compute_max_progress(width: usize, height: usize) -> (r: usize)
        ensures
            r == (if width >= height { width as int } else { height as int }) / 2,
    {
        let m = if width >= height {
            width
        } else {
            height
        };
        m / 2
    }

    /// Whether the pass sees the neighbor of `(x, y)` at window offset
    /// `(dx - 1, dy - 1)` as live.
    fn nb(
        image: &BinaryImage,
        is_deleted: &BoolMatrix,
        x: usize,
        y: usize,
        dx: usize,
        dy: usize,
    ) -> (r: bool)
        requires
            image.wf(),
            is_deleted.wf(),
            is_deleted.spec_width() == image.spec_width(),
            is_deleted.spec_height() == image.spec_height(),
            x < image.spec_width(),
            y < image.spec_height(),
            image.spec_width() <= usize::MAX - 2,
            image.spec_height() <= usize::MAX - 2,
            dx < 3,
            dy < 3,
        ensures
            r == ros_nb(
                image.cells(),
                image.fg(),
                is_deleted.cells(),
                x + dx - 1,
                y + dy - 1,
            ),
    {
        let nx = x + dx;
        let ny = y + dy;
        if nx >= 1 && nx - 1 < image.width() && ny >= 1 && ny - 1 < image.height() {
            image.is_fg(nx - 1, ny - 1) || is_deleted.check(nx - 1, ny - 1)
        } else {
            false
        }
    }

    /// One directional pass over the whole grid. Returns how many pixels it
    /// removed; zero exactly when the pass's starting state had no removable
    /// pixel, in which case the grid is unchanged.
    #[verifier::rlimit(100)]
    fn process_side(&self, image: &mut BinaryImage, side: &ProcessingSide) -> (amount: usize)
        requires
            old(image).wf(),
            old(image).spec_width() <= usize::MAX - 2,
            old(image).spec_height() <= usize::MAX - 2,
            old(image).spec_width() * old(image).spec_height() <= u32::MAX,
        ensures
            final(image).wf(),
            final(image).spec_width() == old(image).spec_width(),
            final(image).spec_height() == old(image).spec_height(),
            final(image).bg() == old(image).bg(),
            final(image).fg() == old(image).fg(),
            forall|a: int, b: int|
                fg_at(final(image).cells(), final(image).fg(), a, b) ==> fg_at(
                    old(image).cells(),
                    old(image).fg(),
                    a,
                    b,
                ),
            grid_count(final(image).cells(), final(image).fg()) + amount == grid_count(
                old(image).cells(),
                old(image).fg(),
            ),
            amount == 0 ==> final(image).cells() == old(image).cells(),
            (amount == 0) <==> (forall|a: int, b: int|
                0 <= a < old(image).spec_width() && 0 <= b < old(image).spec_height() ==> !(
                #[trigger] ros_removable(
                    old(image).cells(),
                    old(image).fg(),
                    old(image).bg(),
                    self.spec_mode(),
                    *side,
                    a,
                    b,
                ))),
            // only pixels on the pass's border are eroded: a removed pixel's
            // neighbor one step toward the pass's side was not foreground in
            // the pass's starting state
            forall|a: int, b: int|
                #![trigger fg_at(old(image).cells(), old(image).fg(), a, b), fg_at(final(image).cells(), final(image).fg(), a, b)]
                fg_at(old(image).cells(), old(image).fg(), a, b) && !fg_at(
                    final(image).cells(),
                    final(image).fg(),
                    a,
                    b,
                ) ==> !fg_at(
                    old(image).cells(),
                    old(image).fg(),
                    a + side_dx(*side),
                    b + side_dy(*side),
                ),
            // thin lines are never broken: a foreground pixel with fewer than
            // two live neighbors in the starting state is never removed
            forall|a: int, b: int|
                fg_at(old(image).cells(), old(image).fg(), a, b) && #[trigger] ros_live_count(
                    old(image).cells(),
                    old(image).fg(),
                    self.spec_mode(),
                    *side,
                    a,
                    b,
                ) < 2 ==> fg_at(final(image).cells(), final(image).fg(), a, b),
    {
        let w = image.width();
        let h = image.height();
        let ghost cells0 = image.cells();
        let ghost fgc = image.fg();
        let ghost bgc = image.bg();
        let ghost mode = self.spec_mode();

        let mut amount: usize = 0;
        let mut is_deleted = BoolMatrix::new(w, h, false);
        proof {
            lemma_grid_count_le(cells0, fgc, w as int, h as int);
            assert forall|a: int, b: int| !mat_at(is_deleted.cells(), a, b) by {
                if 0 <= b < h && 0 <= a < w {
                    assert(is_deleted.cells()[b][a] == false);
                }
            };
        }

        let mut y: usize = 0;
        while y < h
            invariant
                y <= h,
                image.wf(),
                w == image.spec_width(),
                h == image.spec_height(),
                image.bg() == bgc,
                image.fg() == fgc,
                cells0 == old(image).cells(),
                fgc == old(image).fg(),
                bgc == old(image).bg(),
                mode == self.spec_mode(),
                w <= usize::MAX - 2,
                h <= usize::MAX - 2,
                w * h <= u32::MAX,
                grid_count(cells0, fgc) <= w * h,
                is_deleted.wf(),
                is_deleted.spec_width() == w,
                is_deleted.spec_height() == h,
                forall|a: int, b: int|
                    fg_at(image.cells(), fgc, a, b) ==> fg_at(cells0, fgc, a, b),
                grid_count(image.cells(), fgc) + amount == grid_count(cells0, fgc),
                rect(cells0, w as int, h as int),
                forall|a: int, b: int|
                    #[trigger] mat_at(is_deleted.cells(), a, b) <==> (fg_at(cells0, fgc, a, b)
                        && !fg_at(image.cells(), fgc, a, b)),
                forall|a: int, b: int|
                    #![trigger fg_at(cells0, fgc, a, b), fg_at(image.cells(), fgc, a, b)]
                    fg_at(cells0, fgc, a, b) && !fg_at(image.cells(), fgc, a, b) ==> !fg_at(
                        cells0,
                        fgc,
                        a + side_dx(*side),
                        b + side_dy(*side),
                    ),
                forall|a: int, b: int|
                    fg_at(cells0, fgc, a, b) && #[trigger] ros_live_count(
                        cells0,
                        fgc,
                        mode,
                        *side,
                        a,
                        b,
                    ) < 2 ==> fg_at(image.cells(), fgc, a, b),
                amount == 0 ==> image.cells() == cells0,
                amount == 0 ==> (forall|a: int, b: int| !mat_at(is_deleted.cells(), a, b)),
                amount == 0 ==> (forall|a: int, b: int|
                    0 <= a < w && 0 <= b < y ==> !(#[trigger] ros_removable(
                        cells0,
                        fgc,
                        bgc,
                        mode,
                        *side,
                        a,
                        b,
                    ))),
                amount > 0 ==> (exists|a: int, b: int|
                    0 <= a < w && 0 <= b < h && #[trigger] ros_removable(
                        cells0,
                        fgc,
                        bgc,
                        mode,
                        *side,
                        a,
                        b,
                    )),
            decreases h - y,
        {
            let mut x: usize = 0;
            while x < w
                invariant
                    x <= w,
                    y < h,
                    image.wf(),
                    w == image.spec_width(),
                    h == image.spec_height(),
                    image.bg() == bgc,
                    image.fg() == fgc,
                    cells0 == old(image).cells(),
                    fgc == old(image).fg(),
                    bgc == old(image).bg(),
                    mode == self.spec_mode(),
                    w <= usize::MAX - 2,
                    h <= usize::MAX - 2,
                    w * h <= u32::MAX,
                    grid_count(cells0, fgc) <= w * h,
                    is_deleted.wf(),
                    is_deleted.spec_width() == w,
                    is_deleted.spec_height() == h,
                    forall|a: int, b: int|
                        fg_at(image.cells(), fgc, a, b) ==> fg_at(cells0, fgc, a, b),
                    grid_count(image.cells(), fgc) + amount == grid_count(cells0, fgc),
                    rect(cells0, w as int, h as int),
                    forall|a: int, b: int|
                        #[trigger] mat_at(is_deleted.cells(), a, b) <==> (fg_at(cells0, fgc, a, b)
                            && !fg_at(image.cells(), fgc, a, b)),
                    forall|a: int, b: int|
                        #![trigger fg_at(cells0, fgc, a, b), fg_at(image.cells(), fgc, a, b)]
                        fg_at(cells0, fgc, a, b) && !fg_at(image.cells(), fgc, a, b) ==> !fg_at(
                            cells0,
                            fgc,
                            a + side_dx(*side),
                            b + side_dy(*side),
                        ),
                    forall|a: int, b: int|
                        fg_at(cells0, fgc, a, b) && #[trigger] ros_live_count(
                            cells0,
                            fgc,
                            mode,
                            *side,
                            a,
                            b,
                        ) < 2 ==> fg_at(image.cells(), fgc, a, b),
                    amount == 0 ==> image.cells() == cells0,
                    amount == 0 ==> (forall|a: int, b: int| !mat_at(is_deleted.cells(), a, b)),
                    amount == 0 ==> (forall|a: int, b: int|
                        0 <= a < w && ((0 <= b < y) || (b == y && 0 <= a < x)) ==> !(
                        #[trigger] ros_removable(cells0, fgc, bgc, mode, *side, a, b))),
                    amount > 0 ==> (exists|a: int, b: int|
                        0 <= a < w && 0 <= b < h && #[trigger] ros_removable(
                            cells0,
                            fgc,
                            bgc,
                            mode,
                            *side,
                            a,
                            b,
                        )),
                decreases w - x,
            {
                if !image.is_bg(x, y) {
                    proof {
                        // with the deletion flags, neighbor classification
                        // sees exactly the pass's starting state
                        assert forall|a: int, b: int|
                            ros_nb(image.cells(), fgc, is_deleted.cells(), a, b) == fg_at(
                            cells0,
                            fgc,
                            a,
                            b,
                        ) by {
                            if 0 <= b < h && 0 <= a < w {
                            } else {
                                assert(!ros_nb(image.cells(), fgc, is_deleted.cells(), a, b));
                                assert(!fg_at(cells0, fgc, a, b));
                            }
                        };
                    }
                    let nn = Self::nb(image, &is_deleted, x, y, 1, 0);
                    let ee = Self::nb(image, &is_deleted, x, y, 2, 1);
                    let ss = Self::nb(image, &is_deleted, x, y, 1, 2);
                    let ww = Self::nb(image, &is_deleted, x, y, 0, 1);

                    let side_live = match side {
                        ProcessingSide::North => nn,
                        ProcessingSide::East => ee,
                        ProcessingSide::South => ss,
                        ProcessingSide::West => ww,
                    };
                    if !side_live {
                        let mut black_count: u32 = 0;
                        if !matches!(side, ProcessingSide::North) && nn {
                            black_count = black_count + 1;
                        }
                        if !matches!(side, ProcessingSide::East) && ee {
                            black_count = black_count + 1;
                        }
                        if !matches!(side, ProcessingSide::South) && ss {
                            black_count = black_count + 1;
                        }
                        if !matches!(side, ProcessingSide::West) && ww {
                            black_count = black_count + 1;
                        }
                        if self.mode == AdjacencyMode::Eight {
                            if Self::nb(image, &is_deleted, x, y, 0, 0) {
                                black_count = black_count + 1;
                            }
                            if Self::nb(image, &is_deleted, x, y, 2, 0) {
                                black_count = black_count + 1;
                            }
                            if Self::nb(image, &is_deleted, x, y, 2, 2) {
                                black_count = black_count + 1;
                            }
                            if Self::nb(image, &is_deleted, x, y, 0, 2) {
                                black_count = black_count + 1;
                            }
                        }
                        if black_count >= 2 {
                            if !is_local_articulation_point(image, x, y, self.mode) {
                                proof {
                                    if amount == 0 {
                                        assert(ros_removable(
                                            cells0,
                                            fgc,
                                            bgc,
                                            mode,
                                            *side,
                                            x as int,
                                            y as int,
                                        ));
                                    }
                                }
                                proof {
                                    assert(!fg_at(
                                        cells0,
                                        fgc,
                                        x + side_dx(*side),
                                        y + side_dy(*side),
                                    ));
                                    assert(ros_live_count(
                                        cells0,
                                        fgc,
                                        mode,
                                        *side,
                                        x as int,
                                        y as int,
                                    ) >= 2);
                                    assert(fg_at(cells0, fgc, x as int, y as int));
                                }
                                let ghost cells_pre = image.cells();
                                let ghost del_pre = is_deleted.cells();
                                is_deleted.set(x, y);
                                image.set_bg(x, y);
                                proof {
                                    lemma_grid_count_update(
                                        cells_pre,
                                        y as int,
                                        cells_pre[y as int].update(x as int, bgc),
                                        fgc,
                                    );
                                    lemma_row_count_update(
                                        cells_pre[y as int],
                                        x as int,
                                        bgc,
                                        fgc,
                                    );
                                    assert forall|a: int, b: int|
                                        #[trigger] mat_at(is_deleted.cells(), a, b) <==> (mat_at(
                                        del_pre,
                                        a,
                                        b,
                                    ) || (a == x as int && b == y as int)) by {
                                        if 0 <= b < h && 0 <= a < w {
                                            if b == y as int {
                                                assert(is_deleted.cells()[b][a] == del_pre[b]
                                                    .update(x as int, true)[a]);
                                            } else {
                                                assert(is_deleted.cells()[b] == del_pre[b]);
                                            }
                                        }
                                    };
                                }
                                amount = amount + 1;
                            }
                        }
                    }
                }
                x = x + 1;
            }
            y = y + 1;
        }
        amount
    }
}

impl Skeletonizer for RosenfeldSkeletonizer {
    /// A returned grid is a fixpoint of a full four-direction round.
    open spec fn done(&self, img: BinaryImage) -> bool {
        ros_settled(img, self.spec_mode())
    }

    /// On a fixpoint grid the algorithm removes nothing.
    open spec fn settled(&self, img: BinaryImage) -> bool {
        ros_settled(img, self.spec_mode())
    }

    #[verifier::rlimit(100)]
    fn process(&self, image: &mut BinaryImage) {
        let w = image.width();
        let h = image.height();
        let ghost cells0 = image.cells();
        let ghost fgc = image.fg();
        let ghost bgc = image.bg();
        let ghost mode = self.spec_mode();

        proof {
            assert((w + 2) * 3 <= (w + 2) * (h + 2)) by (nonlinear_arith)
                requires w + 2 >= 0 && h + 2 >= 3;
            assert((h + 2) * 3 <= (w + 2) * (h + 2)) by (nonlinear_arith)
                requires h + 2 >= 0 && w + 2 >= 3;
            assert((h + 2) * (w + 2) == (w + 2) * (h + 2)) by (nonlinear_arith);
            assert(w * h <= (w + 2) * (h + 2)) by (nonlinear_arith)
                requires w >= 0 && h >= 0;
        }

        loop
            invariant
                image.wf(),
                w == image.spec_width(),
                h == image.spec_height(),
                image.bg() == bgc,
                image.fg() == fgc,
                cells0 == old(image).cells(),
                fgc == old(image).fg(),
                bgc == old(image).bg(),
                mode == self.spec_mode(),
                w <= usize::MAX - 2,
                h <= usize::MAX - 2,
                w * h <= u32::MAX,
                forall|a: int, b: int|
                    fg_at(image.cells(), fgc, a, b) ==> fg_at(cells0, fgc, a, b),
                ros_settled(*old(image), mode) ==> image.cells() == cells0,
            ensures
                image.wf(),
                w == image.spec_width(),
                h == image.spec_height(),
                image.bg() == bgc,
                image.fg() == fgc,
                forall|a: int, b: int|
                    fg_at(image.cells(), fgc, a, b) ==> fg_at(cells0, fgc, a, b),
                ros_settled(*old(image), mode) ==> image.cells() == cells0,
                ros_settled(*image, mode),
            decreases grid_count(image.cells(), fgc),
        {
            proof {
                lemma_grid_count_le(image.cells(), fgc, w as int, h as int);
            }
            let ghost g0 = image.cells();
            let a1 = self.process_side(image, &ProcessingSide::North);
            let ghost g1 = image.cells();
            let a2 = self.process_side(image, &ProcessingSide::South);
            let ghost g2 = image.cells();
            let a3 = self.process_side(image, &ProcessingSide::West);
            let ghost g3 = image.cells();
            let a4 = self.process_side(image, &ProcessingSide::East);

            proof {
                assert(a1 + a2 + a3 + a4 <= grid_count(g0, fgc));
                if ros_settled(*old(image), mode) {
                    assert(g0 == cells0);
                    assert forall|a: int, b: int|
                        0 <= a < w && 0 <= b < h implies !(#[trigger] ros_removable(
                        g0,
                        fgc,
                        bgc,
                        mode,
                        ProcessingSide::North,
                        a,
                        b,
                    )) by {
                        assert(!ros_removable(
                            cells0,
                            fgc,
                            bgc,
                            mode,
                            ProcessingSide::North,
                            a,
                            b,
                        ));
                    };
                    assert(a1 == 0);
                    assert(g1 == g0);
                    assert forall|a: int, b: int|
                        0 <= a < w && 0 <= b < h implies !(#[trigger] ros_removable(
                        g1,
                        fgc,
                        bgc,
                        mode,
                        ProcessingSide::South,
                        a,
                        b,
                    )) by {
                        assert(!ros_removable(
                            cells0,
                            fgc,
                            bgc,
                            mode,
                            ProcessingSide::South,
                            a,
                            b,
                        ));
                    };
                    assert(a2 == 0);
                    assert(g2 == g0);
                    assert forall|a: int, b: int|
                        0 <= a < w && 0 <= b < h implies !(#[trigger] ros_removable(
                        g2,
                        fgc,
                        bgc,
                        mode,
                        ProcessingSide::West,
                        a,
                        b,
                    )) by {
                        assert(!ros_removable(
                            cells0,
                            fgc,
                            bgc,
                            mode,
                            ProcessingSide::West,
                            a,
                            b,
                        ));
                    };
                    assert(a3 == 0);
                    assert(g3 == g0);
                    assert forall|a: int, b: int|
                        0 <= a < w && 0 <= b < h implies !(#[trigger] ros_removable(
                        g3,
                        fgc,
                        bgc,
                        mode,
                        ProcessingSide::East,
                        a,
                        b,
                    )) by {
                        assert(!ros_removable(
                            cells0,
                            fgc,
                            bgc,
                            mode,
                            ProcessingSide::East,
                            a,
                            b,
                        ));
                    };
                    assert(a4 == 0);
                    assert(image.cells() == cells0);
                }
            }

            if a1 + a2 + a3 + a4 == 0 {
                proof {
                    assert(a1 == 0 && a2 == 0 && a3 == 0 && a4 == 0);
                    assert(g1 == g0 && g2 == g0 && g3 == g0);
                    assert(image.cells() == g0);
                    assert(ros_settled(*image, mode)) by {
                        assert(image.spec_width() == w && image.spec_height() == h);
                        assert forall|a: int, b: int|
                            0 <= a < w && 0 <= b < h implies !(#[trigger] ros_removable(
                            image.cells(),
                            fgc,
                            bgc,
                            mode,
                            ProcessingSide::North,
                            a,
                            b,
                        )) && !(#[trigger] ros_removable(
                            image.cells(),
                            fgc,
                            bgc,
                            mode,
                            ProcessingSide::South,
                            a,
                            b,
                        )) && !(#[trigger] ros_removable(
                            image.cells(),
                            fgc,
                            bgc,
                            mode,
                            ProcessingSide::West,
                            a,
                            b,
                        )) && !(#[trigger] ros_removable(
                            image.cells(),
                            fgc,
                            bgc,
                            mode,
                            ProcessingSide::East,
                            a,
                            b,
                        )) by {
                            assert(!ros_removable(g0, fgc, bgc, mode, ProcessingSide::North, a, b));
                            assert(!ros_removable(g1, fgc, bgc, mode, ProcessingSide::South, a, b));
                            assert(!ros_removable(g2, fgc, bgc, mode, ProcessingSide::West, a, b));
                            assert(!ros_removable(g3, fgc, bgc, mode, ProcessingSide::East, a, b));
                        };
                    };
                }
                break;
            }
        }
    }
}

} // verus!
