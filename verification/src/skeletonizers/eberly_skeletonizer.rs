//! Skeletonization by Eberly three-stage thinning.
//!
//! Three stages run in order, each iterated to its own fixpoint: a
//! four-interior stage, a three-interior stage and a two-interior stage. One
//! driving loop serves all three: compute the stage's interior flags; if no
//! pixel is interior the stage is over; otherwise remove the boundary pixels
//! (foreground, not interior, next to background and to an interior pixel,
//! and not a local articulation point under eight-adjacency); when a sweep
//! removes nothing, the stage's final cleanup runs and the stage ends.

use vstd::prelude::*;

use crate::binary_image::BinaryImage;
use crate::binary_image::PixelColor;
use crate::bool_matrix::BoolMatrix;
use crate::grid::grid_count;
use crate::grid::lemma_grid_count_update;
use crate::grid::lemma_row_count_update;
use crate::skeletonizers::AdjacencyMode;
use crate::skeletonizers::Skeletonizer;
use crate::skeletonizers::is_articulation;
use crate::skeletonizers::is_local_articulation_point;
use crate::skeletonizers::connectivity::fg_at;
use crate::skeletonizers::connectivity::mat_at;

verus! {

pub struct EberlySkeletonizer;

/// The center of a plus-shaped pattern of five foreground cells: such a
/// pixel and its four edge neighbors are all foreground.
pub open spec fn four_interior(
    cells: Seq<Seq<PixelColor>>,
    fgc: PixelColor,
    x: int,
    y: int,
) -> bool {
    &&& fg_at(cells, fgc, x, y)
    &&& fg_at(cells, fgc, x, y - 1)
    &&& fg_at(cells, fgc, x + 1, y)
    &&& fg_at(cells, fgc, x, y + 1)
    &&& fg_at(cells, fgc, x - 1, y)
}

/// How many of the four edge neighbors of `(x, y)` are in-bounds foreground.
pub open spec fn eb_edge_count(
    cells: Seq<Seq<PixelColor>>,
    fgc: PixelColor,
    x: int,
    y: int,
) -> int {
    (if fg_at(cells, fgc, x, y - 1) { 1int } else { 0int })
        + (if fg_at(cells, fgc, x + 1, y) { 1int } else { 0int })
        + (if fg_at(cells, fgc, x, y + 1) { 1int } else { 0int })
        + (if fg_at(cells, fgc, x - 1, y) { 1int } else { 0int })
}

/// A foreground pixel with exactly three foreground edge neighbors.
pub open spec fn three_interior(
    cells: Seq<Seq<PixelColor>>,
    fgc: PixelColor,
    x: int,
    y: int,
) -> bool {
    fg_at(cells, fgc, x, y) && eb_edge_count(cells, fgc, x, y) == 3
}

/// A foreground pixel with exactly one foreground neighbor on the horizontal
/// axis and exactly one on the vertical axis.
pub open spec fn two_interior(
    cells: Seq<Seq<PixelColor>>,
    fgc: PixelColor,
    x: int,
    y: int,
) -> bool {
    let horizontal = (if fg_at(cells, fgc, x + 1, y) { 1int } else { 0int }) + (if fg_at(
        cells,
        fgc,
        x - 1,
        y,
    ) {
        1int
    } else {
        0int
    });
    let vertical = (if fg_at(cells, fgc, x, y - 1) { 1int } else { 0int }) + (if fg_at(
        cells,
        fgc,
        x,
        y + 1,
    ) {
        1int
    } else {
        0int
    });
    fg_at(cells, fgc, x, y) && horizontal == 1 && vertical == 1
}

/// No pixel is interior for any of the three stages: every stage of a run
/// ends at once and the grid is returned unchanged.
pub open spec fn eb_settled(cells: Seq<Seq<PixelColor>>, fgc: PixelColor) -> bool {
    &&& forall|x: int, y: int| !(#[trigger] four_interior(cells, fgc, x, y))
    &&& forall|x: int, y: int| !(#[trigger] three_interior(cells, fgc, x, y))
    &&& forall|x: int, y: int| !(#[trigger] two_interior(cells, fgc, x, y))
}

/// The interior flags of a grid under a stage's predicate, as a matrix of
/// the grid's dimensions.
pub open spec fn interior_flags<T: EberlyInteriorAlgorithm>(
    cells: Seq<Seq<PixelColor>>,
    fgc: PixelColor,
) -> Seq<Seq<bool>> {
    Seq::new(
        cells.len(),
        |y: int| Seq::new(cells[y].len(), |x: int| T::spec_interior(cells, fgc, x, y)),
    )
}

/// The shape of a flagged-cell cleanup: a cell changes only from foreground
/// to background, and only where the stage's interior flag is set.
pub open spec fn eb_cleanup(
    before: Seq<Seq<PixelColor>>,
    after: Seq<Seq<PixelColor>>,
    fgc: PixelColor,
    bgc: PixelColor,
    flags: Seq<Seq<bool>>,
) -> bool {
    &&& after.len() == before.len()
    &&& forall|y: int| 0 <= y < before.len() ==> (#[trigger] after[y]).len() == before[y].len()
    &&& forall|x: int, y: int|
        0 <= y < before.len() && 0 <= x < before[y].len() ==> (#[trigger] after[y][x]
            == before[y][x] || (mat_at(flags, x, y) && before[y][x] == fgc && after[y][x] == bgc))
}

/// What holds of every grid a run returns: the two-interior stage, the last
/// to run, exited. Either no pixel of the grid is two-interior, or the grid
/// is the flagged-cell cleanup of a starting grid that still had
/// two-interior pixels but no removable boundary pixel.
pub open spec fn eb_done(cells: Seq<Seq<PixelColor>>, fgc: PixelColor, bgc: PixelColor) -> bool {
    ||| (forall|x: int, y: int| !(#[trigger] two_interior(cells, fgc, x, y)))
    ||| (exists|pre: Seq<Seq<PixelColor>>|
        #![trigger eb_cleanup(pre, cells, fgc, bgc, interior_flags::<TwoInteriorAlgorithm>(pre, fgc))]
        (exists|x: int, y: int| two_interior(pre, fgc, x, y)) && (forall|x: int, y: int|
            0 <= y < pre.len() && 0 <= x < pre[y].len() ==> !(#[trigger] eb_boundary(
                pre,
                fgc,
                bgc,
                interior_flags::<TwoInteriorAlgorithm>(pre, fgc),
                x,
                y,
            ))) && eb_cleanup(
            pre,
            cells,
            fgc,
            bgc,
            interior_flags::<TwoInteriorAlgorithm>(pre, fgc),
        ))
}

/// One interior notion of the Eberly scheme, with its stage-ending cleanup.
pub trait EberlyInteriorAlgorithm {
    /// The stage's interior predicate.
    spec fn spec_interior(
        cells: Seq<Seq<PixelColor>>,
        fgc: PixelColor,
        x: int,
        y: int,
    ) -> bool;

    fn is_interior(image: &BinaryImage, x: usize, y: usize) -> (r: bool)
        requires
            image.wf(),
            x < image.spec_width(),
            y < image.spec_height(),
            image.spec_width() <= usize::MAX - 2,
            image.spec_height() <= usize::MAX - 2,
        ensures
            r == Self::spec_interior(image.cells(), image.fg(), x as int, y as int),
    ;

    /// What the stage's cleanup does to the grid, given the interior flags.
    spec fn spec_cleanup(
        before: Seq<Seq<PixelColor>>,
        after: Seq<Seq<PixelColor>>,
        fgc: PixelColor,
        bgc: PixelColor,
        flags: Seq<Seq<bool>>,
    ) -> bool;

    /// The cleanup that runs when a sweep of the stage removes no boundary
    /// pixel.
    fn remove_interiors(image: &mut BinaryImage, is_interior: &BoolMatrix)
        requires
            old(image).wf(),
            is_interior.wf(),
            is_interior.spec_width() == old(image).spec_width(),
            is_interior.spec_height() == old(image).spec_height(),
            old(image).spec_width() <= usize::MAX - 2,
            old(image).spec_height() <= usize::MAX - 2,
        ensures
            final(image).wf(),
            final(image).spec_width() == old(image).spec_width(),
            final(image).spec_height() == old(image).spec_height(),
            final(image).bg() == old(image).bg(),
            final(image).fg() == old(image).fg(),
            forall|a: int, b: int|
                fg_at(final(image).cells(), final(image).fg(), a, b) ==> fg_at(
                    old(image).cells(),
                    old(image).fg(),
                    a,
                    b,
                ),
            grid_count(final(image).cells(), final(image).fg()) <= grid_count(
                old(image).cells(),
                old(image).fg(),
            ),
            Self::spec_cleanup(
                old(image).cells(),
                final(image).cells(),
                old(image).fg(),
                old(image).bg(),
                is_interior.cells(),
            ),
    ;
}

pub struct FourInteriorAlgorithm;

pub struct ThreeInteriorAlgorithm;

pub struct TwoInteriorAlgorithm;

/// Clears every flagged pixel that is not a local articulation point under
/// eight-adjacency; shared by the three- and two-interior cleanups.
fn remove_flagged(image: &mut BinaryImage, is_interior: &BoolMatrix)
    requires
        old(image).wf(),
        is_interior.wf(),
        is_interior.spec_width() == old(image).spec_width(),
        is_interior.spec_height() == old(image).spec_height(),
        old(image).spec_width() <= usize::MAX - 2,
        old(image).spec_height() <= usize::MAX - 2,
    ensures
        final(image).wf(),
        final(image).spec_width() == old(image).spec_width(),
        final(image).spec_height() == old(image).spec_height(),
        final(image).bg() == old(image).bg(),
        final(image).fg() == old(image).fg(),
        forall|a: int, b: int|
            fg_at(final(image).cells(), final(image).fg(), a, b) ==> fg_at(
                old(image).cells(),
                old(image).fg(),
                a,
                b,
            ),
        grid_count(final(image).cells(), final(image).fg()) <= grid_count(
            old(image).cells(),
            old(image).fg(),
        ),
        eb_cleanup(
            old(image).cells(),
            final(image).cells(),
            old(image).fg(),
            old(image).bg(),
            is_interior.cells(),
        ),
{
    let w = image.width();
    let h = image.height();
    let ghost cells0 = image.cells();
    let ghost fgc = image.fg();
    let ghost bgc = image.bg();
    let mut y: usize = 0;
    while y < h
        invariant
            y <= h,
            image.wf(),
            w == image.spec_width(),
            h == image.spec_height(),
            image.bg() == bgc,
            image.fg() == fgc,
            cells0 == old(image).cells(),
            fgc == old(image).fg(),
            bgc == old(image).bg(),
            w <= usize::MAX - 2,
            h <= usize::MAX - 2,
            is_interior.wf(),
            is_interior.spec_width() == w,
            is_interior.spec_height() == h,
            forall|a: int, b: int|
                fg_at(image.cells(), fgc, a, b) ==> fg_at(cells0, fgc, a, b),
            grid_count(image.cells(), fgc) <= grid_count(cells0, fgc),
            forall|a: int, b: int|
                0 <= a < w && 0 <= b < h ==> (#[trigger] image.cells()[b][a] == cells0[b][a] || (
                mat_at(is_interior.cells(), a, b) && cells0[b][a] == fgc && image.cells()[b][a]
                    == bgc)),
        decreases h - y,
    {
        let mut x: usize = 0;
        while x < w
            invariant
                x <= w,
                y < h,
                image.wf(),
                w == image.spec_width(),
                h == image.spec_height(),
                image.bg() == bgc,
                image.fg() == fgc,
                cells0 == old(image).cells(),
                fgc == old(image).fg(),
                bgc == old(image).bg(),
                w <= usize::MAX - 2,
                h <= usize::MAX - 2,
                is_interior.wf(),
                is_interior.spec_width() == w,
                is_interior.spec_height() == h,
                forall|a: int, b: int|
                    fg_at(image.cells(), fgc, a, b) ==> fg_at(cells0, fgc, a, b),
                grid_count(image.cells(), fgc) <= grid_count(cells0, fgc),
                forall|a: int, b: int|
                    0 <= a < w && 0 <= b < h ==> (#[trigger] image.cells()[b][a] == cells0[b][a]
                        || (mat_at(is_interior.cells(), a, b) && cells0[b][a] == fgc
                        && image.cells()[b][a] == bgc)),
            decreases w - x,
        {
            if is_interior.check(x, y) {
                if !is_local_articulation_point(image, x, y, AdjacencyMode::Eight) {
                    let ghost cells_pre = image.cells();
                    image.set_bg(x, y);
                    proof {
                        lemma_grid_count_update(
                            cells_pre,
                            y as int,
                            cells_pre[y as int].update(x as int, bgc),
                            fgc,
                        );
                        lemma_row_count_update(cells_pre[y as int], x as int, bgc, fgc);
                    }
                }
            }
            x = x + 1;
        }
        y = y + 1;
    }
}

impl EberlyInteriorAlgorithm for FourInteriorAlgorithm {
    open spec fn spec_interior(
        cells: Seq<Seq<PixelColor>>,
        fgc: PixelColor,
        x: int,
        y: int,
    ) -> bool {
        four_interior(cells, fgc, x, y)
    }

    fn is_interior(image: &BinaryImage, x: usize, y: usize) -> (r: bool)
    {
        let w = image.width();
        let h = image.height();
        if x == 0 || y == 0 || x >= w - 1 || y >= h - 1 {
            proof {
                assert(!four_interior(image.cells(), image.fg(), x as int, y as int));
            }
            false
        } else {
            image.is_fg(x, y) && image.is_fg(x, y - 1) && image.is_fg(x + 1, y) && image.is_fg(
                x,
                y + 1,
            ) && image.is_fg(x - 1, y)
        }
    }

    /// The four-interior stage has no cleanup: the grid is unchanged.
    open spec fn spec_cleanup(
        before: Seq<Seq<PixelColor>>,
        after: Seq<Seq<PixelColor>>,
        fgc: PixelColor,
        bgc: PixelColor,
        flags: Seq<Seq<bool>>,
    ) -> bool {
        after == before
    }

    fn remove_interiors(_image: &mut BinaryImage, _is_interior: &BoolMatrix)
    {
    }
}

impl ThreeInteriorAlgorithm {
    /// The number of in-bounds foreground cells among the four edge
    /// neighbors of `(x, y)`.
    pub fn count_black_neighbours(image: &BinaryImage, x: usize, y: usize) -> (r: usize)
        requires
            image.wf(),
            x < image.spec_width(),
            y < image.spec_height(),
            image.spec_width() <= usize::MAX - 2,
            image.spec_height() <= usize::MAX - 2,
        ensures
            r == eb_edge_count(image.cells(), image.fg(), x as int, y as int),
    {
        let w = image.width();
        let h = image.height();
        let mut count: usize = 0;
        if y >= 1 && image.is_fg(x, y - 1) {
            count = count + 1;
        }
        if x + 1 < w && image.is_fg(x + 1, y) {
            count = count + 1;
        }
        if y + 1 < h && image.is_fg(x, y + 1) {
            count = count + 1;
        }
        if x >= 1 && image.is_fg(x - 1, y) {
            count = count + 1;
        }
        count
    }
}

impl EberlyInteriorAlgorithm for ThreeInteriorAlgorithm {
    open spec fn spec_interior(
        cells: Seq<Seq<PixelColor>>,
        fgc: PixelColor,
        x: int,
        y: int,
    ) -> bool {
        three_interior(cells, fgc, x, y)
    }

    fn is_interior(image: &BinaryImage, x: usize, y: usize) -> (r: bool)
    {
        image.is_fg(x, y) && Self::count_black_neighbours(image, x, y) == 3
    }

    /// The cleanup clears flagged cells and touches nothing else.
    open spec fn spec_cleanup(
        before: Seq<Seq<PixelColor>>,
        after: Seq<Seq<PixelColor>>,
        fgc: PixelColor,
        bgc: PixelColor,
        flags: Seq<Seq<bool>>,
    ) -> bool {
        eb_cleanup(before, after, fgc, bgc, flags)
    }

    fn remove_interiors(image: &mut BinaryImage, is_interior: &BoolMatrix)
    {
        remove_flagged(image, is_interior);
    }
}

impl EberlyInteriorAlgorithm for TwoInteriorAlgorithm {
    open spec fn spec_interior(
        cells: Seq<Seq<PixelColor>>,
        fgc: PixelColor,
        x: int,
        y: int,
    ) -> bool {
        two_interior(cells, fgc, x, y)
    }

    fn is_interior(image: &BinaryImage, x: usize, y: usize) -> (r: bool)
    {
        let w = image.width();
        let h = image.height();
        if image.is_fg(x, y) {
            let mut horizontal: usize = 0;
            let mut vertical: usize = 0;
            if y >= 1 && image.is_fg(x, y - 1) {
                vertical = vertical + 1;
            }
            if x + 1 < w && image.is_fg(x + 1, y) {
                horizontal = horizontal + 1;
            }
            if y + 1 < h && image.is_fg(x, y + 1) {
                vertical = vertical + 1;
            }
            if x >= 1 && image.is_fg(x - 1, y) {
                horizontal = horizontal + 1;
            }
            horizontal == 1 && vertical == 1
        } else {
            false
        }
    }

    /// The cleanup clears flagged cells and touches nothing else.
    open spec fn spec_cleanup(
        before: Seq<Seq<PixelColor>>,
        after: Seq<Seq<PixelColor>>,
        fgc: PixelColor,
        bgc: PixelColor,
        flags: Seq<Seq<bool>>,
    ) -> bool {
        eb_cleanup(before, after, fgc, bgc, flags)
    }

    fn remove_interiors(image: &mut BinaryImage, is_interior: &BoolMatrix)
    {
        remove_flagged(image, is_interior);
    }
}

impl EberlySkeletonizer {
    pub fn new() -> (r: Self)
    {
        EberlySkeletonizer {}
    }
}

} // verus!

// The driving loop shared by the three stages, and the full process.
verus! {

/// The pixel touches the grid's outer edge or has a background cell in its
/// 3x3 window.
pub open spec fn eb_adjacent_bg(
    cells: Seq<Seq<PixelColor>>,
    bgc: PixelColor,
    x: int,
    y: int,
) -> bool {
    ||| x == 0
    ||| y == 0
    ||| x >= cells[0].len() - 1
    ||| y >= cells.len() - 1
    ||| exists|u: int, v: int|
        x - 1 <= u <= x + 1 && y - 1 <= v <= y + 1 && #[trigger] cells[v][u] == bgc
}

/// Some cell of the 3x3 window around `(x, y)` carries a set interior flag.
pub open spec fn eb_adjacent_interior(m: Seq<Seq<bool>>, x: int, y: int) -> bool {
    exists|u: int, v: int|
        x - 1 <= u <= x + 1 && y - 1 <= v <= y + 1 && #[trigger] mat_at(m, u, v)
}

/// The sweep removes the pixel at `(x, y)`: foreground, not interior, next
/// to background and to an interior pixel, and not a local articulation
/// point under eight-adjacency.
pub open spec fn eb_boundary(
    cells: Seq<Seq<PixelColor>>,
    fgc: PixelColor,
    bgc: PixelColor,
    m: Seq<Seq<bool>>,
    x: int,
    y: int,
) -> bool {
    &&& fg_at(cells, fgc, x, y)
    &&& !mat_at(m, x, y)
    &&& eb_adjacent_bg(cells, bgc, x, y)
    &&& eb_adjacent_interior(m, x, y)
    &&& !is_articulation(cells, fgc, bgc, AdjacencyMode::Eight, x, y)
}

impl EberlySkeletonizer {
    fn is_adjacent_to_bg(image: &BinaryImage, x: usize, y: usize) -> (r: bool)
        requires
            image.wf(),
            x < image.spec_width(),
            y < image.spec_height(),
        ensures
            r == eb_adjacent_bg(image.cells(), image.bg(), x as int, y as int),
    {
        let w = image.width();
        let h = image.height();
        if x == 0 || y == 0 || x >= w - 1 || y >= h - 1 {
            return true;
        }
        if image.is_bg(x - 1, y - 1) {
            return true;
        }
        if image.is_bg(x, y - 1) {
            return true;
        }
        if image.is_bg(x + 1, y - 1) {
            return true;
        }
        if image.is_bg(x - 1, y) {
            return true;
        }
        if image.is_bg(x, y) {
            return true;
        }
        if image.is_bg(x + 1, y) {
            return true;
        }
        if image.is_bg(x - 1, y + 1) {
            return true;
        }
        if image.is_bg(x, y + 1) {
            return true;
        }
        if image.is_bg(x + 1, y + 1) {
            return true;
        }
        proof {
            assert(!eb_adjacent_bg(image.cells(), image.bg(), x as int, y as int)) by {
                if eb_adjacent_bg(image.cells(), image.bg(), x as int, y as int) {
                    let (u, v) = choose|u: int, v: int|
                        x - 1 <= u <= x + 1 && y - 1 <= v <= y + 1 && #[trigger] image.cells()[v][u]
                            == image.bg();
                    assert(u == x - 1 || u == x || u == x + 1);
                    assert(v == y - 1 || v == y || v == y + 1);
                    assert(false);
                }
            };
        }
        false
    }

    fn is_adjacent_to_interior(
        image: &BinaryImage,
        x: usize,
        y: usize,
        is_interior: &BoolMatrix,
    ) -> (r: bool)
        requires
            image.wf(),
            is_interior.wf(),
            is_interior.spec_width() == image.spec_width(),
            is_interior.spec_height() == image.spec_height(),
            x < image.spec_width(),
            y < image.spec_height(),
            image.spec_width() <= usize::MAX - 2,
            image.spec_height() <= usize::MAX - 2,
        ensures
            r == eb_adjacent_interior(is_interior.cells(), x as int, y as int),
    {
        let w = image.width();
        let h = image.height();
        let mut dy: usize = 0;
        while dy < 3
            invariant
                dy <= 3,
                image.wf(),
                is_interior.wf(),
                is_interior.spec_width() == image.spec_width(),
                is_interior.spec_height() == image.spec_height(),
                w == image.spec_width(),
                h == image.spec_height(),
                x < w,
                y < h,
                w <= usize::MAX - 2,
                h <= usize::MAX - 2,
                forall|u: int, v: int|
                    x - 1 <= u <= x + 1 && y - 1 <= v < y - 1 + dy ==> !(#[trigger] mat_at(
                        is_interior.cells(),
                        u,
                        v,
                    )),
            decreases 3 - dy,
        {
            let mut dx: usize = 0;
            while dx < 3
                invariant
                    dx <= 3,
                    dy < 3,
                    image.wf(),
                    is_interior.wf(),
                    is_interior.spec_width() == image.spec_width(),
                    is_interior.spec_height() == image.spec_height(),
                    w == image.spec_width(),
                    h == image.spec_height(),
                    x < w,
                    y < h,
                    w <= usize::MAX - 2,
                    h <= usize::MAX - 2,
                    forall|u: int, v: int|
                        x - 1 <= u <= x + 1 && y - 1 <= v < y - 1 + dy ==> !(#[trigger] mat_at(
                            is_interior.cells(),
                            u,
                            v,
                        )),
                    forall|u: int|
                        x - 1 <= u < x - 1 + dx ==> !(#[trigger] mat_at(
                            is_interior.cells(),
                            u,
                            y - 1 + dy,
                        )),
                decreases 3 - dx,
            {
                let nx = x + dx;
                let ny = y + dy;
                if nx >= 1 && nx - 1 < w && ny >= 1 && ny - 1 < h {
                    if is_interior.check(nx - 1, ny - 1) {
                        proof {
                            assert(mat_at(is_interior.cells(), x + dx - 1, y + dy - 1));
                        }
                        return true;
                    }
                }
                proof {
                    assert(!mat_at(is_interior.cells(), x + dx - 1, y + dy - 1));
                }
                dx = dx + 1;
            }
            dy = dy + 1;
        }
        proof {
            assert(!eb_adjacent_interior(is_interior.cells(), x as int, y as int)) by {
                if eb_adjacent_interior(is_interior.cells(), x as int, y as int) {
                    let (u, v) = choose|u: int, v: int|
                        x - 1 <= u <= x + 1 && y - 1 <= v <= y + 1 && #[trigger] mat_at(
                            is_interior.cells(),
                            u,
                            v,
                        );
                    assert(u == x - 1 || u == x || u == x + 1);
                    assert(v == y - 1 || v == y || v == y + 1);
                    assert(false);
                }
            };
        }
        false
    }

    fn is_boundary(image: &BinaryImage, x: usize, y: usize, is_interior: &BoolMatrix) -> (r:
        bool)
        requires
            image.wf(),
            is_interior.wf(),
            is_interior.spec_width() == image.spec_width(),
            is_interior.spec_height() == image.spec_height(),
            x < image.spec_width(),
            y < image.spec_height(),
            image.spec_width() <= usize::MAX - 2,
            image.spec_height() <= usize::MAX - 2,
        ensures
            r == eb_boundary(
                image.cells(),
                image.fg(),
                image.bg(),
                is_interior.cells(),
                x as int,
                y as int,
            ),
    {
        image.is_fg(x, y) && !is_interior.check(x, y) && Self::is_adjacent_to_bg(image, x, y)
            && Self::is_adjacent_to_interior(image, x, y, is_interior)
            && !is_local_articulation_point(image, x, y, AdjacencyMode::Eight)
    }
}

} // verus!

// The stage driver: interior flags, boundary sweeps, and the full process.
verus! {

/// What one call of the driving loop reports.
#[derive(Clone, Copy, PartialEq, Eq, Structural)]
enum ReturnStatus {
    ExitCriteriaNotMet,
    NoMoreInteriorPixels,
    CantRemoveMoreBoundaryPixels,
}

impl EberlySkeletonizer {
    /// Flags every pixel that is interior for the stage; `None` when no
    /// pixel is.
    fn get_interior_matrix<T: EberlyInteriorAlgorithm>(image: &BinaryImage) -> (r: Option<
        BoolMatrix,
    >)
        requires
            image.wf(),
            image.spec_width() <= usize::MAX - 2,
            image.spec_height() <= usize::MAX - 2,
        ensures
            match r {
                Option::None => forall|a: int, b: int|
                    0 <= a < image.spec_width() && 0 <= b < image.spec_height()
                        ==> !T::spec_interior(image.cells(), image.fg(), a, b),
                Option::Some(m) => {
                    &&& m.wf()
                    &&& m.spec_width() == image.spec_width()
                    &&& m.spec_height() == image.spec_height()
                    &&& forall|a: int, b: int|
                        #[trigger] mat_at(m.cells(), a, b) <==> (0 <= a < image.spec_width() && 0
                            <= b < image.spec_height() && T::spec_interior(
                            image.cells(),
                            image.fg(),
                            a,
                            b,
                        ))
                    &&& exists|a: int, b: int|
                        0 <= a < image.spec_width() && 0 <= b < image.spec_height()
                            && #[trigger] T::spec_interior(image.cells(), image.fg(), a, b)
                },
            },
    {
        let w = image.width();
        let h = image.height();
        let mut is_interior = BoolMatrix::new(w, h, false);
        let mut is_interior_exists = false;

        let mut y: usize = 0;
        while y < h
            invariant
                y <= h,
                image.wf(),
                w == image.spec_width(),
                h == image.spec_height(),
                w <= usize::MAX - 2,
                h <= usize::MAX - 2,
                is_interior.wf(),
                is_interior.spec_width() == w,
                is_interior.spec_height() == h,
                forall|a: int, b: int|
                    #[trigger] mat_at(is_interior.cells(), a, b) <==> (0 <= a < w && 0 <= b < y
                        && T::spec_interior(image.cells(), image.fg(), a, b)),
                is_interior_exists <==> (exists|a: int, b: int|
                    0 <= a < w && 0 <= b < y && #[trigger] T::spec_interior(
                        image.cells(),
                        image.fg(),
                        a,
                        b,
                    )),
            decreases h - y,
        {
            let mut x: usize = 0;
            while x < w
                invariant
                    x <= w,
                    y < h,
                    image.wf(),
                    w == image.spec_width(),
                    h == image.spec_height(),
                    w <= usize::MAX - 2,
                    h <= usize::MAX - 2,
                    is_interior.wf(),
                    is_interior.spec_width() == w,
                    is_interior.spec_height() == h,
                    forall|a: int, b: int|
                        #[trigger] mat_at(is_interior.cells(), a, b) <==> ((0 <= a < w && 0 <= b
                            < y && T::spec_interior(image.cells(), image.fg(), a, b)) || (0 <= a
                            < x && b == y && T::spec_interior(image.cells(), image.fg(), a, b))),
                    is_interior_exists <==> (exists|a: int, b: int|
                        0 <= a < w && ((0 <= b < y) || (b == y && a < x))
                            && #[trigger] T::spec_interior(image.cells(), image.fg(), a, b)),
                decreases w - x,
            {
                if T::is_interior(image, x, y) {
                    let ghost m_before = is_interior.cells();
                    is_interior.set(x, y);
                    is_interior_exists = true;
                    proof {
                        assert forall|a: int, b: int|
                            #[trigger] mat_at(is_interior.cells(), a, b) <==> (mat_at(
                                m_before,
                                a,
                                b,
                            ) || (a == x as int && b == y as int)) by {
                            if 0 <= b < h && 0 <= a < w {
                                if b == y as int {
                                    assert(is_interior.cells()[b][a] == m_before[b].update(
                                        x as int,
                                        true,
                                    )[a]);
                                } else {
                                    assert(is_interior.cells()[b] == m_before[b]);
                                }
                            }
                        };
                    }
                }
                x = x + 1;
            }
            y = y + 1;
        }

        if is_interior_exists {
            Option::Some(is_interior)
        } else {
            Option::None
        }
    }

    /// One sweep that clears every boundary pixel; returns how many it
    /// cleared.
    fn remove_boundaries(image: &mut BinaryImage, is_interior: &BoolMatrix) -> (amount: usize)
        requires
            old(image).wf(),
            is_interior.wf(),
            is_interior.spec_width() == old(image).spec_width(),
            is_interior.spec_height() == old(image).spec_height(),
            old(image).spec_width() <= usize::MAX - 2,
            old(image).spec_height() <= usize::MAX - 2,
            old(image).spec_width() * old(image).spec_height() <= u32::MAX,
        ensures
            final(image).wf(),
            final(image).spec_width() == old(image).spec_width(),
            final(image).spec_height() == old(image).spec_height(),
            final(image).bg() == old(image).bg(),
            final(image).fg() == old(image).fg(),
            forall|a: int, b: int|
                fg_at(final(image).cells(), final(image).fg(), a, b) ==> fg_at(
                    old(image).cells(),
                    old(image).fg(),
                    a,
                    b,
                ),
            grid_count(final(image).cells(), final(image).fg()) + amount == grid_count(
                old(image).cells(),
                old(image).fg(),
            ),
            (amount == 0) <==> (forall|a: int, b: int|
                0 <= a < old(image).spec_width() && 0 <= b < old(image).spec_height() ==> !(
                #[trigger] eb_boundary(
                    old(image).cells(),
                    old(image).fg(),
                    old(image).bg(),
                    is_interior.cells(),
                    a,
                    b,
                ))),
            amount == 0 ==> final(image).cells() == old(image).cells(),
            // a cell changes only by the boundary rule: from foreground to
            // background, unflagged, next to an interior flag, and next to
            // background in the result
            forall|a: int, b: int|
                0 <= a < old(image).spec_width() && 0 <= b < old(image).spec_height() ==> (
                #[trigger] final(image).cells()[b][a] == old(image).cells()[b][a] || (old(
                    image,
                ).cells()[b][a] == old(image).fg() && final(image).cells()[b][a] == old(
                    image,
                ).bg() && !mat_at(is_interior.cells(), a, b) && eb_adjacent_interior(
                    is_interior.cells(),
                    a,
                    b,
                ) && eb_adjacent_bg(final(image).cells(), old(image).bg(), a, b))),
    {
        let w = image.width();
        let h = image.height();
        let ghost cells0 = image.cells();
        let ghost fgc = image.fg();
        let ghost bgc = image.bg();
        let mut amount: usize = 0;
        proof {
            crate::grid::lemma_grid_count_le(cells0, fgc, w as int, h as int);
        }

        let mut y: usize = 0;
        while y < h
            invariant
                y <= h,
                image.wf(),
                w == image.spec_width(),
                h == image.spec_height(),
                image.bg() == bgc,
                image.fg() == fgc,
                cells0 == old(image).cells(),
                fgc == old(image).fg(),
                bgc == old(image).bg(),
                w <= usize::MAX - 2,
                h <= usize::MAX - 2,
                w * h <= u32::MAX,
                grid_count(cells0, fgc) <= w * h,
                is_interior.wf(),
                is_interior.spec_width() == w,
                is_interior.spec_height() == h,
                forall|a: int, b: int|
                    fg_at(image.cells(), fgc, a, b) ==> fg_at(cells0, fgc, a, b),
                grid_count(image.cells(), fgc) + amount == grid_count(cells0, fgc),
                amount == 0 ==> image.cells() == cells0,
                amount == 0 ==> (forall|a: int, b: int|
                    0 <= a < w && 0 <= b < y ==> !(#[trigger] eb_boundary(
                        cells0,
                        fgc,
                        bgc,
                        is_interior.cells(),
                        a,
                        b,
                    ))),
                amount > 0 ==> (exists|a: int, b: int|
                    0 <= a < w && 0 <= b < h && #[trigger] eb_boundary(
                        cells0,
                        fgc,
                        bgc,
                        is_interior.cells(),
                        a,
                        b,
                    )),
                forall|a: int, b: int|
                    0 <= a < w && 0 <= b < h ==> (#[trigger] image.cells()[b][a] == cells0[b][a]
                        || (cells0[b][a] == fgc && image.cells()[b][a] == bgc && !mat_at(
                        is_interior.cells(),
                        a,
                        b,
                    ) && eb_adjacent_interior(is_interior.cells(), a, b) && eb_adjacent_bg(
                        image.cells(),
                        bgc,
                        a,
                        b,
                    ))),
            decreases h - y,
        {
            let mut x: usize = 0;
            while x < w
                invariant
                    x <= w,
                    y < h,
                    image.wf(),
                    w == image.spec_width(),
                    h == image.spec_height(),
                    image.bg() == bgc,
                    image.fg() == fgc,
                    cells0 == old(image).cells(),
                    fgc == old(image).fg(),
                    bgc == old(image).bg(),
                    w <= usize::MAX - 2,
                    h <= usize::MAX - 2,
                    w * h <= u32::MAX,
                    grid_count(cells0, fgc) <= w * h,
                    is_interior.wf(),
                    is_interior.spec_width() == w,
                    is_interior.spec_height() == h,
                    forall|a: int, b: int|
                        fg_at(image.cells(), fgc, a, b) ==> fg_at(cells0, fgc, a, b),
                    grid_count(image.cells(), fgc) + amount == grid_count(cells0, fgc),
                    amount == 0 ==> image.cells() == cells0,
                    amount == 0 ==> (forall|a: int, b: int|
                        0 <= a < w && ((0 <= b < y) || (b == y && 0 <= a < x)) ==> !(
                        #[trigger] eb_boundary(cells0, fgc, bgc, is_interior.cells(), a, b))),
                    amount > 0 ==> (exists|a: int, b: int|
                        0 <= a < w && 0 <= b < h && #[trigger] eb_boundary(
                            cells0,
                            fgc,
                            bgc,
                            is_interior.cells(),
                            a,
                            b,
                        )),
                    forall|a: int, b: int|
                        0 <= a < w && 0 <= b < h ==> (#[trigger] image.cells()[b][a]
                            == cells0[b][a] || (cells0[b][a] == fgc && image.cells()[b][a] == bgc
                            && !mat_at(is_interior.cells(), a, b) && eb_adjacent_interior(
                            is_interior.cells(),
                            a,
                            b,
                        ) && eb_adjacent_bg(image.cells(), bgc, a, b))),
                decreases w - x,
            {
                if Self::is_boundary(image, x, y, is_interior) {
                    let ghost cells_pre = image.cells();
                    image.set_bg(x, y);
                    proof {
                        lemma_grid_count_update(
                            cells_pre,
                            y as int,
                            cells_pre[y as int].update(x as int, bgc),
                            fgc,
                        );
                        lemma_row_count_update(cells_pre[y as int], x as int, bgc, fgc);
                        // the flipped cell is its own background witness, and
                        // earlier flips keep theirs: background cells stay
                        assert(image.cells()[y as int][x as int] == bgc);
                        assert(eb_adjacent_bg(image.cells(), bgc, x as int, y as int));
                        assert forall|a: int, b: int|
                            0 <= a < w && 0 <= b < h && cells_pre[b][a] == bgc implies #[trigger]
                            image.cells()[b][a] == bgc by {
                            if a == x as int && b == y as int {
                            } else {
                                assert(image.cells()[b][a] == cells_pre[b][a]);
                            }
                        };
                        assert forall|a: int, b: int|
                            0 <= a < w && 0 <= b < h && eb_adjacent_bg(
                                cells_pre,
                                bgc,
                                a,
                                b,
                            ) implies eb_adjacent_bg(image.cells(), bgc, a, b) by {
                            if !(a == 0 || b == 0 || a >= w - 1 || b >= h - 1) {
                                let (u, v) = choose|u: int, v: int|
                                    a - 1 <= u <= a + 1 && b - 1 <= v <= b + 1
                                        && #[trigger] cells_pre[v][u] == bgc;
                                assert(0 <= u < w && 0 <= v < h);
                                assert(image.cells()[v][u] == bgc);
                            }
                        };
                    }
                    amount = amount + 1;
                }
                x = x + 1;
            }
            y = y + 1;
        }
        amount
    }

    /// One call of the stage's driving loop.
    fn thinning<T: EberlyInteriorAlgorithm>(image: &mut BinaryImage) -> (r: ReturnStatus)
        requires
            old(image).wf(),
            old(image).spec_width() <= usize::MAX - 2,
            old(image).spec_height() <= usize::MAX - 2,
            old(image).spec_width() * old(image).spec_height() <= u32::MAX,
        ensures
            final(image).wf(),
            final(image).spec_width() == old(image).spec_width(),
            final(image).spec_height() == old(image).spec_height(),
            final(image).bg() == old(image).bg(),
            final(image).fg() == old(image).fg(),
            forall|a: int, b: int|
                fg_at(final(image).cells(), final(image).fg(), a, b) ==> fg_at(
                    old(image).cells(),
                    old(image).fg(),
                    a,
                    b,
                ),
            grid_count(final(image).cells(), final(image).fg()) <= grid_count(
                old(image).cells(),
                old(image).fg(),
            ),
            r == ReturnStatus::ExitCriteriaNotMet ==> grid_count(
                final(image).cells(),
                final(image).fg(),
            ) < grid_count(old(image).cells(), old(image).fg()),
            (r == ReturnStatus::NoMoreInteriorPixels) <==> (forall|a: int, b: int|
                0 <= a < old(image).spec_width() && 0 <= b < old(image).spec_height()
                    ==> !T::spec_interior(old(image).cells(), old(image).fg(), a, b)),
            r == ReturnStatus::NoMoreInteriorPixels ==> final(image).cells() == old(
                image,
            ).cells(),
            (r == ReturnStatus::ExitCriteriaNotMet) <==> ((exists|a: int, b: int|
                0 <= a < old(image).spec_width() && 0 <= b < old(image).spec_height()
                    && T::spec_interior(old(image).cells(), old(image).fg(), a, b)) && (exists|
                a: int,
                b: int,
            |
                0 <= a < old(image).spec_width() && 0 <= b < old(image).spec_height()
                    && #[trigger] eb_boundary(
                    old(image).cells(),
                    old(image).fg(),
                    old(image).bg(),
                    interior_flags::<T>(old(image).cells(), old(image).fg()),
                    a,
                    b,
                ))),
            (r == ReturnStatus::CantRemoveMoreBoundaryPixels) ==> ((exists|a: int, b: int|
                0 <= a < old(image).spec_width() && 0 <= b < old(image).spec_height()
                    && T::spec_interior(old(image).cells(), old(image).fg(), a, b)) && (forall|
                a: int,
                b: int,
            |
                0 <= a < old(image).spec_width() && 0 <= b < old(image).spec_height() ==> !(
                #[trigger] eb_boundary(
                    old(image).cells(),
                    old(image).fg(),
                    old(image).bg(),
                    interior_flags::<T>(old(image).cells(), old(image).fg()),
                    a,
                    b,
                ))) && T::spec_cleanup(
                old(image).cells(),
                final(image).cells(),
                old(image).fg(),
                old(image).bg(),
                interior_flags::<T>(old(image).cells(), old(image).fg()),
            )),
    {
        let ghost w0 = old(image).spec_width();
        let ghost h0 = old(image).spec_height();
        let ghost cells0 = old(image).cells();
        let ghost fgc = old(image).fg();
        let interior = Self::get_interior_matrix::<T>(image);
        match interior {
            Option::Some(is_interior) => {
                proof {
                    // the computed flag matrix is exactly the interior flags
                    // of the starting grid
                    let flags = interior_flags::<T>(cells0, fgc);
                    assert(is_interior.cells() =~~= flags) by {
                        assert forall|b: int|
                            0 <= b < h0 implies is_interior.cells()[b] =~= flags[b] by {
                            assert forall|a: int|
                                0 <= a < w0 implies is_interior.cells()[b][a] == flags[b][a] by {
                                if is_interior.cells()[b][a] {
                                    assert(mat_at(is_interior.cells(), a, b));
                                } else {
                                    assert(!mat_at(is_interior.cells(), a, b));
                                }
                            };
                        };
                    };
                }
                let amount_removed = Self::remove_boundaries(image, &is_interior);
                if amount_removed == 0 {
                    T::remove_interiors(image, &is_interior);
                    ReturnStatus::CantRemoveMoreBoundaryPixels
                } else {
                    ReturnStatus::ExitCriteriaNotMet
                }
            },
            Option::None => ReturnStatus::NoMoreInteriorPixels,
        }
    }
}

impl Skeletonizer for EberlySkeletonizer {
    /// A returned grid is an exit state of the final, two-interior stage.
    open spec fn done(&self, img: BinaryImage) -> bool {
        eb_done(img.cells(), img.fg(), img.bg())
    }

    /// With no interior pixel for any stage, every stage ends at once.
    open spec fn settled(&self, img: BinaryImage) -> bool {
        eb_settled(img.cells(), img.fg())
    }

    #[verifier::rlimit(100)]
    fn process(&self, image: &mut BinaryImage) {
        let w = image.width();
        let h = image.height();
        let ghost cells0 = image.cells();
        let ghost fgc = image.fg();

        proof {
            assert((w + 2) * 3 <= (w + 2) * (h + 2)) by (nonlinear_arith)
                requires w + 2 >= 0 && h + 2 >= 3;
            assert((h + 2) * 3 <= (w + 2) * (h + 2)) by (nonlinear_arith)
                requires h + 2 >= 0 && w + 2 >= 3;
            assert((h + 2) * (w + 2) == (w + 2) * (h + 2)) by (nonlinear_arith);
            assert(w * h <= (w + 2) * (h + 2)) by (nonlinear_arith)
                requires w >= 0 && h >= 0;
        }

        loop
            invariant
                image.wf(),
                w == image.spec_width(),
                h == image.spec_height(),
                image.bg() == old(image).bg(),
                image.fg() == fgc,
                cells0 == old(image).cells(),
                fgc == old(image).fg(),
                w <= usize::MAX - 2,
                h <= usize::MAX - 2,
                w * h <= u32::MAX,
                forall|a: int, b: int|
                    fg_at(image.cells(), fgc, a, b) ==> fg_at(cells0, fgc, a, b),
                eb_settled(cells0, fgc) ==> image.cells() == cells0,
            ensures
                image.wf(),
                w == image.spec_width(),
                h == image.spec_height(),
                image.bg() == old(image).bg(),
                image.fg() == fgc,
                forall|a: int, b: int|
                    fg_at(image.cells(), fgc, a, b) ==> fg_at(cells0, fgc, a, b),
                eb_settled(cells0, fgc) ==> image.cells() == cells0,
            decreases grid_count(image.cells(), fgc),
        {
            let ghost pre = image.cells();
            let status = Self::thinning::<FourInteriorAlgorithm>(image);
            proof {
                if eb_settled(cells0, fgc) {
                    assert(pre == cells0);
                    assert forall|a: int, b: int| 0 <= a < w && 0 <= b < h implies
                        !FourInteriorAlgorithm::spec_interior(pre, fgc, a, b) by {
                        assert(!four_interior(cells0, fgc, a, b));
                    };
                    assert(status == ReturnStatus::NoMoreInteriorPixels);
                    assert(image.cells() == cells0);
                }
            }
            if !(status == ReturnStatus::ExitCriteriaNotMet) {
                break;
            }
        }

        loop
            invariant
                image.wf(),
                w == image.spec_width(),
                h == image.spec_height(),
                image.bg() == old(image).bg(),
                image.fg() == fgc,
                cells0 == old(image).cells(),
                fgc == old(image).fg(),
                w <= usize::MAX - 2,
                h <= usize::MAX - 2,
                w * h <= u32::MAX,
                forall|a: int, b: int|
                    fg_at(image.cells(), fgc, a, b) ==> fg_at(cells0, fgc, a, b),
                eb_settled(cells0, fgc) ==> image.cells() == cells0,
            ensures
                image.wf(),
                w == image.spec_width(),
                h == image.spec_height(),
                image.bg() == old(image).bg(),
                image.fg() == fgc,
                forall|a: int, b: int|
                    fg_at(image.cells(), fgc, a, b) ==> fg_at(cells0, fgc, a, b),
                eb_settled(cells0, fgc) ==> image.cells() == cells0,
            decreases grid_count(image.cells(), fgc),
        {
            let ghost pre = image.cells();
            let status = Self::thinning::<ThreeInteriorAlgorithm>(image);
            proof {
                if eb_settled(cells0, fgc) {
                    assert(pre == cells0);
                    assert forall|a: int, b: int| 0 <= a < w && 0 <= b < h implies
                        !ThreeInteriorAlgorithm::spec_interior(pre, fgc, a, b) by {
                        assert(!three_interior(cells0, fgc, a, b));
                    };
                    assert(status == ReturnStatus::NoMoreInteriorPixels);
                    assert(image.cells() == cells0);
                }
            }
            if !(status == ReturnStatus::ExitCriteriaNotMet) {
                break;
            }
        }

        loop
            invariant
                image.wf(),
                w == image.spec_width(),
                h == image.spec_height(),
                image.bg() == old(image).bg(),
                image.fg() == fgc,
                cells0 == old(image).cells(),
                fgc == old(image).fg(),
                w <= usize::MAX - 2,
                h <= usize::MAX - 2,
                w * h <= u32::MAX,
                forall|a: int, b: int|
                    fg_at(image.cells(), fgc, a, b) ==> fg_at(cells0, fgc, a, b),
                eb_settled(cells0, fgc) ==> image.cells() == cells0,
            ensures
                image.wf(),
                w == image.spec_width(),
                h == image.spec_height(),
                image.bg() == old(image).bg(),
                image.fg() == fgc,
                forall|a: int, b: int|
                    fg_at(image.cells(), fgc, a, b) ==> fg_at(cells0, fgc, a, b),
                eb_settled(cells0, fgc) ==> image.cells() == cells0,
                eb_done(image.cells(), fgc, old(image).bg()),
            decreases grid_count(image.cells(), fgc),
        {
            let ghost pre = image.cells();
            proof {
                assert(forall|b: int| 0 <= b < h ==> (#[trigger] pre[b]).len() == w);
            }
            let status = Self::thinning::<TwoInteriorAlgorithm>(image);
            proof {
                if eb_settled(cells0, fgc) {
                    assert(pre == cells0);
                    assert forall|a: int, b: int| 0 <= a < w && 0 <= b < h implies
                        !TwoInteriorAlgorithm::spec_interior(pre, fgc, a, b) by {
                        assert(!two_interior(cells0, fgc, a, b));
                    };
                    assert(status == ReturnStatus::NoMoreInteriorPixels);
                    assert(image.cells() == cells0);
                }
            }
            if !(status == ReturnStatus::ExitCriteriaNotMet) {
                proof {
                    let cur = image.cells();
                    let bgc = old(image).bg();
                    if status == ReturnStatus::NoMoreInteriorPixels {
                        // the final grid has no two-interior pixel at all
                        assert(cur == pre);
                        assert forall|a: int, b: int| !(#[trigger] two_interior(
                            cur,
                            fgc,
                            a,
                            b,
                        )) by {
                            if 0 <= b < h && 0 <= a < w {
                                assert(!TwoInteriorAlgorithm::spec_interior(pre, fgc, a, b));
                            } else {
                                assert(!fg_at(cur, fgc, a, b));
                            }
                        };
                        assert(eb_done(cur, fgc, bgc));
                    } else {
                        assert(status == ReturnStatus::CantRemoveMoreBoundaryPixels);
                        // the final grid is the cleanup of the grid the call
                        // started from, which had no removable boundary pixel
                        let flags = interior_flags::<TwoInteriorAlgorithm>(pre, fgc);
                        assert(exists|x: int, y: int| two_interior(pre, fgc, x, y)) by {
                            let (a, b) = choose|a: int, b: int|
                                0 <= a < w && 0 <= b < h
                                    && TwoInteriorAlgorithm::spec_interior(pre, fgc, a, b);
                            assert(two_interior(pre, fgc, a, b));
                        };
                        assert forall|x: int, y: int|
                            0 <= y < pre.len() && 0 <= x < pre[y].len() implies !(
                        #[trigger] eb_boundary(pre, fgc, bgc, flags, x, y)) by {
                            assert(pre[y].len() == w);
                            assert(!eb_boundary(pre, fgc, bgc, flags, x, y));
                        };
                        assert(eb_cleanup(pre, cur, fgc, bgc, flags));
                        assert(eb_done(cur, fgc, bgc));
                    }
                }
                break;
            }
        }
    }
}

} // verus!
