//! Thinning strategies and the local-topology test they share.
//!
//! The topology test asks whether one pixel is locally required to keep its
//! 3x3 neighborhood's foreground connected: the neighborhood is copied into a
//! fresh grid (positions outside the image count as background), the connected
//! foreground components are counted, the center is cleared to background, and
//! the components are counted again. The pixel is a local articulation point
//! exactly when the two counts differ.

pub mod connectivity;

pub mod eberly_skeletonizer;

pub mod rosenfeld_skeletonizer;

pub mod zhangsuen_skeletonizer;

use vstd::prelude::*;
use vstd::arithmetic::div_mod::lemma_fundamental_div_mod_converse;

use crate::binary_image::BinaryImage;
use crate::binary_image::PixelColor;
use crate::bool_matrix::BoolMatrix;
use crate::grid::grid_count;
use crate::grid::in_grid;
use crate::grid::lemma_grid_count_le;
use crate::grid::lemma_grid_count_update;
use crate::grid::lemma_row_count_update;
use crate::skeletonizers::connectivity::adjacent;
use crate::skeletonizers::connectivity::component_count;
use crate::skeletonizers::connectivity::connected;
use crate::skeletonizers::connectivity::fg_at;
use crate::skeletonizers::connectivity::fg_path;
use crate::skeletonizers::connectivity::is_seed;
use crate::skeletonizers::connectivity::lemma_closed_reaches;
use crate::skeletonizers::connectivity::lemma_connected_refl;
use crate::skeletonizers::connectivity::lemma_connected_step;
use crate::skeletonizers::connectivity::lemma_connected_trans;
use crate::skeletonizers::connectivity::lemma_seeds_below_le;
use crate::skeletonizers::connectivity::mat_at;
use crate::skeletonizers::connectivity::mat_closed;
use crate::skeletonizers::connectivity::ord;
use crate::skeletonizers::connectivity::seeds_below;

verus! {

/// Whether diagonal neighbors count as connected (`Eight`) or only
/// edge-adjacent ones (`Four`).
#[derive(Clone, Copy, PartialEq, Eq, Structural, Debug)]
pub enum AdjacencyMode {
    Four,
    Eight,
}

/// A thinning strategy: `process` erodes the foreground of `image` in place
/// until the strategy's own fixpoint is reached.
///
/// Every strategy promises that it preserves the image's dimensions and label
/// roles and only ever turns foreground cells into background ones; that its
/// `done` predicate holds of the result; and that an image on which it is
/// already `settled` is returned unchanged. The last clause is the
/// idempotence law: a second run starts from a grid the first run left
/// `done`, and for a strategy whose `settled` equals its `done` it therefore
/// removes nothing.
pub trait Skeletonizer {
    /// What the strategy guarantees about every grid it returns.
    spec fn done(&self, img: BinaryImage) -> bool;

    /// On such a grid the strategy is a no-op.
    spec fn settled(&self, img: BinaryImage) -> bool;

    fn process(&self, image: &mut BinaryImage)
        requires
            old(image).wf(),
            (old(image).spec_width() + 2) * (old(image).spec_height() + 2) <= u32::MAX,
        ensures
            final(image).wf(),
            final(image).spec_width() == old(image).spec_width(),
            final(image).spec_height() == old(image).spec_height(),
            final(image).bg() == old(image).bg(),
            final(image).fg() == old(image).fg(),
            forall|x: int, y: int|
                fg_at(final(image).cells(), final(image).fg(), x, y) ==> fg_at(
                    old(image).cells(),
                    old(image).fg(),
                    x,
                    y,
                ),
            self.done(*final(image)),
            self.settled(*old(image)) ==> final(image).cells() == old(image).cells(),
    ;
}

/// The 3x3 window of `cells` centered at `(x, y)`; positions outside the
/// grid's bounds are labeled with the background `bgc`.
pub open spec fn around_cells(
    cells: Seq<Seq<PixelColor>>,
    bgc: PixelColor,
    x: int,
    y: int,
) -> Seq<Seq<PixelColor>> {
    Seq::new(
        3,
        |dy: int|
            Seq::new(
                3,
                |dx: int|
                    if in_grid(cells, x - 1 + dx, y - 1 + dy) {
                        cells[y - 1 + dy][x - 1 + dx]
                    } else {
                        bgc
                    },
            ),
    )
}

/// Removing `(x, y)` changes the number of connected foreground components
/// of its 3x3 neighborhood.
pub open spec fn is_articulation(
    cells: Seq<Seq<PixelColor>>,
    fgc: PixelColor,
    bgc: PixelColor,
    mode: AdjacencyMode,
    x: int,
    y: int,
) -> bool {
    let a = around_cells(cells, bgc, x, y);
    let b = a.update(1, a[1].update(1, bgc));
    component_count(a, fgc, mode, 3, 3) != component_count(b, fgc, mode, 3, 3)
}

/// `(u, v)` occurs in the stack `s`.
pub open spec fn stack_has(s: Seq<(usize, usize)>, u: int, v: int) -> bool {
    exists|i: int| 0 <= i < s.len() && (#[trigger] s[i]).0 == u && s[i].1 == v
}

/// Every stack entry is a foreground cell connected to the seed.
pub open spec fn stack_items_ok(
    cells: Seq<Seq<PixelColor>>,
    fgc: PixelColor,
    mode: AdjacencyMode,
    sx: int,
    sy: int,
    s: Seq<(usize, usize)>,
) -> bool {
    &&& forall|i: int|
        0 <= i < s.len() ==> fg_at(cells, fgc, (#[trigger] s[i]).0 as int, s[i].1 as int)
    &&& forall|i: int|
        0 <= i < s.len() ==> connected(
            cells,
            fgc,
            mode,
            sx,
            sy,
            (#[trigger] s[i]).0 as int,
            s[i].1 as int,
        )
}

/// Extracts the 3x3 neighborhood centered at `(x, y)` into a fresh grid with
/// the same label roles, labeling out-of-bounds positions as background.
pub fn get_around(image: &BinaryImage, x: usize, y: usize) -> (r: BinaryImage)
    requires
        image.wf(),
        x < image.spec_width(),
        y < image.spec_height(),
        image.spec_width() <= usize::MAX - 2,
        image.spec_height() <= usize::MAX - 2,
    ensures
        r.wf(),
        r.spec_width() == 3,
        r.spec_height() == 3,
        r.bg() == image.bg(),
        r.fg() == image.fg(),
        r.cells() == around_cells(image.cells(), image.bg(), x as int, y as int),
{
    let w = image.width();
    let h = image.height();
    let mut around = BinaryImage::new(3, 3, image.get_bg_color());
    let ghost target = around_cells(image.cells(), image.bg(), x as int, y as int);
    let mut dy: usize = 0;
    while dy < 3
        invariant
            dy <= 3,
            image.wf(),
            w == image.spec_width(),
            h == image.spec_height(),
            x < w,
            y < h,
            w <= usize::MAX - 2,
            h <= usize::MAX - 2,
            around.wf(),
            around.spec_width() == 3,
            around.spec_height() == 3,
            around.bg() == image.bg(),
            around.fg() == image.fg(),
            target == around_cells(image.cells(), image.bg(), x as int, y as int),
            forall|i: int, j: int|
                0 <= i < 3 && 0 <= j < dy ==> around.cells()[j][i] == target[j][i],
            forall|i: int, j: int|
                0 <= i < 3 && dy <= j < 3 ==> around.cells()[j][i] == around.bg(),
        decreases 3 - dy,
    {
        let mut dx: usize = 0;
        while dx < 3
            invariant
                dx <= 3,
                dy < 3,
                image.wf(),
                w == image.spec_width(),
                h == image.spec_height(),
                x < w,
                y < h,
                w <= usize::MAX - 2,
                h <= usize::MAX - 2,
                around.wf(),
                around.spec_width() == 3,
                around.spec_height() == 3,
                around.bg() == image.bg(),
                around.fg() == image.fg(),
                target == around_cells(image.cells(), image.bg(), x as int, y as int),
                forall|i: int, j: int|
                    0 <= i < 3 && 0 <= j < dy ==> around.cells()[j][i] == target[j][i],
                forall|i: int| 0 <= i < dx ==> around.cells()[dy as int][i] == target[dy as int][i],
                forall|i: int| dx <= i < 3 ==> around.cells()[dy as int][i] == around.bg(),
                forall|i: int, j: int|
                    0 <= i < 3 && dy < j < 3 ==> around.cells()[j][i] == around.bg(),
        decreases 3 - dx,
        {
            let nx = x + dx;
            let ny = y + dy;
            if nx >= 1 && nx - 1 < w && ny >= 1 && ny - 1 < h {
                if image.is_fg(nx - 1, ny - 1) {
                    around.set_fg(dx, dy);
                }
            }
            dx = dx + 1;
        }
        dy = dy + 1;
    }
    proof {
        assert(around.cells() =~~= target);
    }
    around
}

/// Pushes `(u, v)` when it is an unvisited foreground cell; the seed and the
/// cell `(u, v)` is adjacent to are ghost context that keeps every stack
/// entry connected to the seed.
fn try_push(
    image: &BinaryImage,
    is_checked: &BoolMatrix,
    pixels_stack: &mut Vec<(usize, usize)>,
    u: usize,
    v: usize,
    mode: AdjacencyMode,
    Ghost(seed): Ghost<(int, int)>,
    Ghost(from): Ghost<(int, int)>,
)
    requires
        image.wf(),
        is_checked.wf(),
        is_checked.spec_width() == image.spec_width(),
        is_checked.spec_height() == image.spec_height(),
        u < image.spec_width(),
        v < image.spec_height(),
        stack_items_ok(
            image.cells(),
            image.fg(),
            mode,
            seed.0,
            seed.1,
            old(pixels_stack)@,
        ),
        connected(image.cells(), image.fg(), mode, seed.0, seed.1, from.0, from.1),
        adjacent(mode, from.0, from.1, u as int, v as int),
    ensures
        stack_items_ok(image.cells(), image.fg(), mode, seed.0, seed.1, final(pixels_stack)@),
        final(pixels_stack)@.len() <= old(pixels_stack)@.len() + 1,
        forall|i: int|
            0 <= i < old(pixels_stack)@.len() ==> final(pixels_stack)@[i] == old(
                pixels_stack,
            )@[i],
        forall|a: int, b: int|
            stack_has(old(pixels_stack)@, a, b) ==> stack_has(final(pixels_stack)@, a, b),
        (fg_at(image.cells(), image.fg(), u as int, v as int) && !mat_at(
            is_checked.cells(),
            u as int,
            v as int,
        )) ==> stack_has(final(pixels_stack)@, u as int, v as int),
        (!(fg_at(image.cells(), image.fg(), u as int, v as int) && !mat_at(
            is_checked.cells(),
            u as int,
            v as int,
        ))) ==> final(pixels_stack)@ == old(pixels_stack)@,
{
    let ghost s0 = pixels_stack@;
    if image.is_fg(u, v) && !is_checked.check(u, v) {
        pixels_stack.push((u, v));
        proof {
            let s1 = pixels_stack@;
            assert(s1 == s0.push((u, v)));
            assert(forall|i: int| 0 <= i < s0.len() ==> s1[i] == s0[i]);
            assert(s1[s1.len() - 1] == (u, v));
            lemma_connected_step(
                image.cells(),
                image.fg(),
                mode,
                seed.0,
                seed.1,
                from.0,
                from.1,
                u as int,
                v as int,
            );
            assert forall|a: int, b: int| stack_has(s0, a, b) implies stack_has(s1, a, b) by {
                let i = choose|i: int| 0 <= i < s0.len() && (#[trigger] s0[i]).0 == a && s0[i].1
                    == b;
                assert(s1[i] == s0[i]);
            };
            assert(stack_has(s1, u as int, v as int));
        }
    }
}

/// Counts the connected foreground components of `image` under `mode`,
/// by a stack-based flood fill over a scratch matrix of visited flags.
pub fn count_components(image: &BinaryImage, mode: AdjacencyMode) -> (r: u32)
    requires
        image.wf(),
        image.spec_width() * image.spec_height() <= u32::MAX,
    ensures
        r == component_count(
            image.cells(),
            image.fg(),
            mode,
            image.spec_width(),
            image.spec_height(),
        ),
{
    let w = image.width();
    let h = image.height();
    let ghost cells = image.cells();
    let ghost fgc = image.fg();
    let mut amount: u32 = 0;
    let mut is_checked = BoolMatrix::new(w, h, false);
    let mut pixels_stack: Vec<(usize, usize)> = Vec::new();

    proof {
        assert(w * h <= u32::MAX);
        assert forall|a: int, b: int| in_grid(cells, a, b) implies !mat_at(
            is_checked.cells(),
            a,
            b,
        ) by {
            assert(is_checked.cells()[b][a] == false);
        };
    }

    let mut y: usize = 0;
    while y < h
        invariant
            y <= h,
            image.wf(),
            w == image.spec_width(),
            h == image.spec_height(),
            cells == image.cells(),
            fgc == image.fg(),
            w * h <= u32::MAX,
            is_checked.wf(),
            is_checked.spec_width() == w,
            is_checked.spec_height() == h,
            pixels_stack@.len() == 0,
            amount == seeds_below(cells, fgc, mode, w as int, (y * w) as nat),
            forall|a: int, b: int|
                #[trigger] mat_at(is_checked.cells(), a, b) ==> fg_at(cells, fgc, a, b),
            mat_closed(cells, fgc, mode, is_checked.cells()),
            forall|a: int, b: int|
                in_grid(cells, a, b) ==> (#[trigger] mat_at(is_checked.cells(), a, b) <==> (fg_at(
                    cells,
                    fgc,
                    a,
                    b,
                ) && exists|uu: int, vv: int|
                    fg_at(cells, fgc, uu, vv) && ord(w as int, uu, vv) < y * w
                        && #[trigger] connected(cells, fgc, mode, uu, vv, a, b))),
        decreases h - y,
    {
        let mut x: usize = 0;
        proof {
            assert(y * w + w == (y + 1) * w) by (nonlinear_arith);
            assert(y * w >= 0) by (nonlinear_arith)
                requires y >= 0 && w >= 0;
            assert((y + 1) * w <= h * w) by (nonlinear_arith)
                requires y + 1 <= h && w >= 0;
            assert(h * w == w * h) by (nonlinear_arith);
        }
        while x < w
            invariant
                x <= w,
                y < h,
                image.wf(),
                w == image.spec_width(),
                h == image.spec_height(),
                cells == image.cells(),
                fgc == image.fg(),
                w * h <= u32::MAX,
                y * w + w <= w * h,
                y * w >= 0,
                is_checked.wf(),
                is_checked.spec_width() == w,
                is_checked.spec_height() == h,
                pixels_stack@.len() == 0,
                amount == seeds_below(cells, fgc, mode, w as int, (y * w + x) as nat),
                forall|a: int, b: int|
                    #[trigger] mat_at(is_checked.cells(), a, b) ==> fg_at(cells, fgc, a, b),
                mat_closed(cells, fgc, mode, is_checked.cells()),
                forall|a: int, b: int|
                    in_grid(cells, a, b) ==> (#[trigger] mat_at(is_checked.cells(), a, b) <==> (
                    fg_at(cells, fgc, a, b) && exists|uu: int, vv: int|
                        fg_at(cells, fgc, uu, vv) && ord(w as int, uu, vv) < y * w + x
                            && #[trigger] connected(cells, fgc, mode, uu, vv, a, b))),
            decreases w - x,
        {
            let ghost n = y * w + x;
            proof {
                lemma_fundamental_div_mod_converse(n, w as int, y as int, x as int);
                lemma_seeds_below_le(cells, fgc, mode, w as int, n as nat);
            }
            if image.is_fg(x, y) && !is_checked.check(x, y) {
                proof {
                    // the cell is a seed: every connected cell has rank >= n
                    assert forall|uu: int, vv: int|
                        fg_at(cells, fgc, uu, vv) && #[trigger] connected(
                            cells,
                            fgc,
                            mode,
                            uu,
                            vv,
                            x as int,
                            y as int,
                        ) implies ord(w as int, uu, vv) >= n by {
                        if ord(w as int, uu, vv) < n {
                            assert(mat_at(is_checked.cells(), x as int, y as int));
                        }
                    };
                    assert(is_seed(cells, fgc, mode, w as int, x as int, y as int));
                    assert(seeds_below(cells, fgc, mode, w as int, (n + 1) as nat) == seeds_below(
                        cells,
                        fgc,
                        mode,
                        w as int,
                        n as nat,
                    ) + 1);
                }
                amount = amount + 1;
                pixels_stack.push((x, y));
                proof {
                    assert(pixels_stack@ =~= seq![(x, y)]);
                    lemma_connected_refl(cells, fgc, mode, x as int, y as int);
                }
                let ghost m_pre = is_checked.cells();
                flood_fill(image, &mut is_checked, &mut pixels_stack, mode, x, y);
                proof {
                    let m = is_checked.cells();
                    assert forall|a: int, b: int| in_grid(cells, a, b) implies (#[trigger] mat_at(
                        m,
                        a,
                        b,
                    ) <==> (fg_at(cells, fgc, a, b) && exists|uu: int, vv: int|
                        fg_at(cells, fgc, uu, vv) && ord(w as int, uu, vv) < n + 1
                            && #[trigger] connected(cells, fgc, mode, uu, vv, a, b))) by {
                        if mat_at(m, a, b) {
                            if connected(cells, fgc, mode, x as int, y as int, a, b) && fg_at(
                                cells,
                                fgc,
                                a,
                                b,
                            ) {
                                assert(fg_at(cells, fgc, x as int, y as int) && ord(
                                    w as int,
                                    x as int,
                                    y as int,
                                ) < n + 1 && connected(
                                    cells,
                                    fgc,
                                    mode,
                                    x as int,
                                    y as int,
                                    a,
                                    b,
                                ));
                            }
                        }
                        if fg_at(cells, fgc, a, b) && exists|uu: int, vv: int|
                            fg_at(cells, fgc, uu, vv) && ord(w as int, uu, vv) < n + 1
                                && #[trigger] connected(cells, fgc, mode, uu, vv, a, b) {
                            let (uu, vv) = choose|uu: int, vv: int|
                                fg_at(cells, fgc, uu, vv) && ord(w as int, uu, vv) < n + 1
                                    && #[trigger] connected(cells, fgc, mode, uu, vv, a, b);
                            if ord(w as int, uu, vv) < n {
                                assert(mat_at(m, a, b));
                            } else {
                                assert(ord(w as int, uu, vv) == n);
                                assert(0 <= uu < w);
                                lemma_fundamental_div_mod_converse(n, w as int, vv, uu);
                                assert(uu == x as int && vv == y as int);
                                assert(mat_at(m, a, b));
                            }
                        }
                    };
                    // closure of the union of closed sets
                    assert forall|a: int, b: int, c: int, d: int|
                        #![trigger mat_at(m, a, b), adjacent(mode, a, b, c, d)]
                        mat_at(m, a, b) && adjacent(mode, a, b, c, d) && fg_at(
                            cells,
                            fgc,
                            c,
                            d,
                        ) implies mat_at(m, c, d) by {
                        if mat_at(m_pre, a, b) {
                        } else {
                            assert(connected(cells, fgc, mode, x as int, y as int, a, b));
                            lemma_connected_step(
                                cells,
                                fgc,
                                mode,
                                x as int,
                                y as int,
                                a,
                                b,
                                c,
                                d,
                            );
                        }
                    };
                }
            } else {
                proof {
                    // not a seed: rank n is either background or already visited
                    if fg_at(cells, fgc, x as int, y as int) {
                        assert(mat_at(is_checked.cells(), x as int, y as int));
                        let (uu, vv) = choose|uu: int, vv: int|
                            fg_at(cells, fgc, uu, vv) && ord(w as int, uu, vv) < n
                                && #[trigger] connected(
                                cells,
                                fgc,
                                mode,
                                uu,
                                vv,
                                x as int,
                                y as int,
                            );
                        assert(!is_seed(cells, fgc, mode, w as int, x as int, y as int));
                    } else {
                        assert(!is_seed(cells, fgc, mode, w as int, x as int, y as int));
                    }
                    assert(seeds_below(cells, fgc, mode, w as int, (n + 1) as nat) == seeds_below(
                        cells,
                        fgc,
                        mode,
                        w as int,
                        n as nat,
                    ));
                    let m = is_checked.cells();
                    assert forall|a: int, b: int| in_grid(cells, a, b) implies (#[trigger] mat_at(
                        m,
                        a,
                        b,
                    ) <==> (fg_at(cells, fgc, a, b) && exists|uu: int, vv: int|
                        fg_at(cells, fgc, uu, vv) && ord(w as int, uu, vv) < n + 1
                            && #[trigger] connected(cells, fgc, mode, uu, vv, a, b))) by {
                        if fg_at(cells, fgc, a, b) && exists|uu: int, vv: int|
                            fg_at(cells, fgc, uu, vv) && ord(w as int, uu, vv) < n + 1
                                && #[trigger] connected(cells, fgc, mode, uu, vv, a, b) {
                            let (uu, vv) = choose|uu: int, vv: int|
                                fg_at(cells, fgc, uu, vv) && ord(w as int, uu, vv) < n + 1
                                    && #[trigger] connected(cells, fgc, mode, uu, vv, a, b);
                            if ord(w as int, uu, vv) < n {
                                assert(mat_at(m, a, b));
                            } else {
                                assert(0 <= uu < w);
                                lemma_fundamental_div_mod_converse(n, w as int, vv, uu);
                                assert(uu == x as int && vv == y as int);
                                // (x, y) is foreground here, hence visited
                                assert(mat_at(m, x as int, y as int));
                                let (u2, v2) = choose|u2: int, v2: int|
                                    fg_at(cells, fgc, u2, v2) && ord(w as int, u2, v2) < n
                                        && #[trigger] connected(
                                        cells,
                                        fgc,
                                        mode,
                                        u2,
                                        v2,
                                        x as int,
                                        y as int,
                                    );
                                lemma_connected_trans(
                                    cells,
                                    fgc,
                                    mode,
                                    u2,
                                    v2,
                                    x as int,
                                    y as int,
                                    a,
                                    b,
                                );
                                assert(mat_at(m, a, b));
                            }
                        }
                    };
                }
            }
            x = x + 1;
        }
        y = y + 1;
    }
    proof {
        assert(y * w == h * w) by (nonlinear_arith)
            requires y == h;
        assert(h * w == w * h) by (nonlinear_arith);
    }
    amount
}

/// Marks `(cx, cy)` as visited and pushes its unvisited foreground neighbors
/// under `mode`; the ghost seed keeps every new stack entry connected to it.
#[verifier::rlimit(100)]
fn visit_cell(
    image: &BinaryImage,
    is_checked: &mut BoolMatrix,
    pixels_stack: &mut Vec<(usize, usize)>,
    mode: AdjacencyMode,
    cx: usize,
    cy: usize,
    Ghost(seed): Ghost<(int, int)>,
)
    requires
        image.wf(),
        old(is_checked).wf(),
        old(is_checked).spec_width() == image.spec_width(),
        old(is_checked).spec_height() == image.spec_height(),
        cx < image.spec_width(),
        cy < image.spec_height(),
        fg_at(image.cells(), image.fg(), cx as int, cy as int),
        connected(image.cells(), image.fg(), mode, seed.0, seed.1, cx as int, cy as int),
        !mat_at(old(is_checked).cells(), cx as int, cy as int),
        stack_items_ok(image.cells(), image.fg(), mode, seed.0, seed.1, old(pixels_stack)@),
    ensures
        final(is_checked).wf(),
        final(is_checked).spec_width() == image.spec_width(),
        final(is_checked).spec_height() == image.spec_height(),
        forall|a: int, b: int|
            #[trigger] mat_at(final(is_checked).cells(), a, b) <==> (mat_at(
                old(is_checked).cells(),
                a,
                b,
            ) || (a == cx as int && b == cy as int)),
        grid_count(final(is_checked).cells(), true) == grid_count(old(is_checked).cells(), true)
            + 1,
        stack_items_ok(image.cells(), image.fg(), mode, seed.0, seed.1, final(pixels_stack)@),
        final(pixels_stack)@.len() <= old(pixels_stack)@.len() + 8,
        forall|a: int, b: int|
            stack_has(old(pixels_stack)@, a, b) ==> stack_has(final(pixels_stack)@, a, b),
        forall|c: int, d: int|
            adjacent(mode, cx as int, cy as int, c, d) && fg_at(image.cells(), image.fg(), c, d)
                ==> mat_at(final(is_checked).cells(), c, d) || stack_has(
                final(pixels_stack)@,
                c,
                d,
            ),
{
    let ghost cells = image.cells();
    let ghost fgc = image.fg();
    let ghost m_before = is_checked.cells();
    let w = image.width();
    let h = image.height();

    is_checked.set(cx, cy);
    proof {
        let m = is_checked.cells();
        assert forall|a: int, b: int|
            #[trigger] mat_at(m, a, b) <==> (mat_at(m_before, a, b) || (a == cx as int && b
                == cy as int)) by {
            if 0 <= b < h && 0 <= a < w {
                if b == cy as int {
                    assert(m[b][a] == m_before[b].update(cx as int, true)[a]);
                } else {
                    assert(m[b] == m_before[b]);
                }
            }
        };
        lemma_grid_count_update(
            m_before,
            cy as int,
            m_before[cy as int].update(cx as int, true),
            true,
        );
        lemma_row_count_update(m_before[cy as int], cx as int, true, true);
    }

    let ghost from = (cx as int, cy as int);
    if cx > 0 {
        try_push(image, &is_checked, pixels_stack, cx - 1, cy, mode, Ghost(seed), Ghost(from));
    }
    if cx + 1 < w {
        try_push(image, &is_checked, pixels_stack, cx + 1, cy, mode, Ghost(seed), Ghost(from));
    }
    if cy > 0 {
        try_push(image, &is_checked, pixels_stack, cx, cy - 1, mode, Ghost(seed), Ghost(from));
    }
    if cy + 1 < h {
        try_push(image, &is_checked, pixels_stack, cx, cy + 1, mode, Ghost(seed), Ghost(from));
    }
    if mode == AdjacencyMode::Eight {
        if cx > 0 && cy > 0 {
            try_push(image, &is_checked, pixels_stack, cx - 1, cy - 1, mode, Ghost(seed), Ghost(from));
        }
        if cx + 1 < w && cy > 0 {
            try_push(image, &is_checked, pixels_stack, cx + 1, cy - 1, mode, Ghost(seed), Ghost(from));
        }
        if cx > 0 && cy + 1 < h {
            try_push(image, &is_checked, pixels_stack, cx - 1, cy + 1, mode, Ghost(seed), Ghost(from));
        }
        if cx + 1 < w && cy + 1 < h {
            try_push(image, &is_checked, pixels_stack, cx + 1, cy + 1, mode, Ghost(seed), Ghost(from));
        }
    }

    proof {
        let m = is_checked.cells();
        let s_end = pixels_stack@;
        assert forall|c: int, d: int|
            adjacent(mode, cx as int, cy as int, c, d) && fg_at(
                cells,
                fgc,
                c,
                d,
            ) implies mat_at(m, c, d) || stack_has(s_end, c, d) by {
            if !mat_at(m, c, d) {
                assert(0 <= c < w && 0 <= d < h);
                let du = c - cx as int;
                let dv = d - cy as int;
                assert(-1 <= du <= 1 && -1 <= dv <= 1 && !(du == 0 && dv == 0));
                assert(stack_has(s_end, c, d));
            }
        };
    }
}

/// Marks, in `is_checked`, every cell of the connected component of the seed
/// `(sx, sy)`, which is the stack's only entry on entry.
#[verifier::rlimit(100)]
fn flood_fill(
    image: &BinaryImage,
    is_checked: &mut BoolMatrix,
    pixels_stack: &mut Vec<(usize, usize)>,
    mode: AdjacencyMode,
    sx: usize,
    sy: usize,
)
    requires
        image.wf(),
        old(is_checked).wf(),
        old(is_checked).spec_width() == image.spec_width(),
        old(is_checked).spec_height() == image.spec_height(),
        old(pixels_stack)@ == seq![(sx, sy)],
        sx < image.spec_width(),
        sy < image.spec_height(),
        fg_at(image.cells(), image.fg(), sx as int, sy as int),
        !mat_at(old(is_checked).cells(), sx as int, sy as int),
        forall|a: int, b: int|
            #[trigger] mat_at(old(is_checked).cells(), a, b) ==> fg_at(
                image.cells(),
                image.fg(),
                a,
                b,
            ),
        mat_closed(image.cells(), image.fg(), mode, old(is_checked).cells()),
    ensures
        final(pixels_stack)@.len() == 0,
        final(is_checked).wf(),
        final(is_checked).spec_width() == image.spec_width(),
        final(is_checked).spec_height() == image.spec_height(),
        forall|a: int, b: int|
            #[trigger] mat_at(final(is_checked).cells(), a, b) <==> (mat_at(
                old(is_checked).cells(),
                a,
                b,
            ) || (fg_at(image.cells(), image.fg(), a, b) && connected(
                image.cells(),
                image.fg(),
                mode,
                sx as int,
                sy as int,
                a,
                b,
            ))),
{
    let w = image.width();
    let h = image.height();
    let ghost cells = image.cells();
    let ghost fgc = image.fg();
    let ghost m0 = old(is_checked).cells();

    proof {
        lemma_connected_refl(cells, fgc, mode, sx as int, sy as int);
        assert(pixels_stack@[0] == (sx, sy));
        lemma_grid_count_le(is_checked.cells(), true, w as int, h as int);
    }

    while pixels_stack.len() > 0
        invariant
            image.wf(),
            w == image.spec_width(),
            h == image.spec_height(),
            cells == image.cells(),
            fgc == image.fg(),
            sx < w,
            sy < h,
            fg_at(cells, fgc, sx as int, sy as int),
            is_checked.wf(),
            is_checked.spec_width() == w,
            is_checked.spec_height() == h,
            m0 == old(is_checked).cells(),
            stack_items_ok(cells, fgc, mode, sx as int, sy as int, pixels_stack@),
            forall|a: int, b: int|
                #[trigger] mat_at(is_checked.cells(), a, b) ==> mat_at(m0, a, b) || (fg_at(
                    cells,
                    fgc,
                    a,
                    b,
                ) && connected(cells, fgc, mode, sx as int, sy as int, a, b)),
            forall|a: int, b: int|
                #[trigger] mat_at(m0, a, b) ==> mat_at(is_checked.cells(), a, b),
            forall|a: int, b: int|
                #[trigger] mat_at(is_checked.cells(), a, b) ==> fg_at(cells, fgc, a, b),
            mat_at(is_checked.cells(), sx as int, sy as int) || stack_has(
                pixels_stack@,
                sx as int,
                sy as int,
            ),
            forall|a: int, b: int, c: int, d: int|
                #![trigger mat_at(is_checked.cells(), a, b), adjacent(mode, a, b, c, d)]
                mat_at(is_checked.cells(), a, b) && adjacent(mode, a, b, c, d) && fg_at(
                    cells,
                    fgc,
                    c,
                    d,
                ) ==> mat_at(is_checked.cells(), c, d) || stack_has(pixels_stack@, c, d),
            grid_count(is_checked.cells(), true) <= w * h,
        decreases 9 * (w * h - grid_count(is_checked.cells(), true)) + pixels_stack@.len(),
    {
        let ghost s_start = pixels_stack@;
        let e = pixels_stack.pop().unwrap();
        let cx = e.0;
        let cy = e.1;
        proof {
            assert(s_start[s_start.len() - 1] == (cx, cy));
            assert(fg_at(cells, fgc, cx as int, cy as int));
            assert(connected(cells, fgc, mode, sx as int, sy as int, cx as int, cy as int));
            assert(pixels_stack@ == s_start.subrange(0, s_start.len() - 1));
            assert(forall|i: int|
                0 <= i < pixels_stack@.len() ==> pixels_stack@[i] == s_start[i]);
        }

        if is_checked.check(cx, cy) {
            proof {
                let s1 = pixels_stack@;
                let m = is_checked.cells();
                assert forall|a: int, b: int, c: int, d: int|
                    #![trigger mat_at(m, a, b), adjacent(mode, a, b, c, d)]
                    mat_at(m, a, b) && adjacent(mode, a, b, c, d) && fg_at(
                        cells,
                        fgc,
                        c,
                        d,
                    ) implies mat_at(m, c, d) || stack_has(s1, c, d) by {
                    if !mat_at(m, c, d) {
                        assert(stack_has(s_start, c, d));
                        let i = choose|i: int|
                            0 <= i < s_start.len() && (#[trigger] s_start[i]).0 == c
                                && s_start[i].1 == d;
                        if i < s_start.len() - 1 {
                            assert(s1[i] == s_start[i]);
                        } else {
                            assert((c, d) == (cx as int, cy as int));
                            assert(mat_at(m, c, d));
                        }
                    }
                };
                if !mat_at(is_checked.cells(), sx as int, sy as int) {
                    assert(stack_has(s_start, sx as int, sy as int));
                    let i = choose|i: int|
                        0 <= i < s_start.len() && (#[trigger] s_start[i]).0 == sx as int
                            && s_start[i].1 == sy as int;
                    if i < s_start.len() - 1 {
                        assert(s1[i] == s_start[i]);
                        assert(stack_has(s1, sx as int, sy as int));
                    } else {
                        assert((sx as int, sy as int) == (cx as int, cy as int));
                    }
                }
            }
        } else {
            let ghost m_before = is_checked.cells();
            visit_cell(
                image,
                is_checked,
                pixels_stack,
                mode,
                cx,
                cy,
                Ghost((sx as int, sy as int)),
            );
            proof {
                let m = is_checked.cells();
                let s_end = pixels_stack@;
                let s1 = s_start.subrange(0, s_start.len() - 1);
                lemma_grid_count_le(m, true, w as int, h as int);

                // frontier for all marked cells
                assert forall|a: int, b: int, c: int, d: int|
                    #![trigger mat_at(m, a, b), adjacent(mode, a, b, c, d)]
                    mat_at(m, a, b) && adjacent(mode, a, b, c, d) && fg_at(
                        cells,
                        fgc,
                        c,
                        d,
                    ) implies mat_at(m, c, d) || stack_has(s_end, c, d) by {
                    if !mat_at(m, c, d) {
                        if a == cx as int && b == cy as int {
                        } else {
                            assert(mat_at(m_before, a, b));
                            assert(stack_has(s_start, c, d));
                            let i = choose|i: int|
                                0 <= i < s_start.len() && (#[trigger] s_start[i]).0 == c
                                    && s_start[i].1 == d;
                            if i < s_start.len() - 1 {
                                assert(s1[i] == s_start[i]);
                                assert(stack_has(s1, c, d));
                            } else {
                                assert((c, d) == (cx as int, cy as int));
                                assert(mat_at(m, c, d));
                            }
                        }
                    }
                };

                // the seed is still covered
                if !mat_at(m, sx as int, sy as int) {
                    assert(stack_has(s_start, sx as int, sy as int));
                    let i = choose|i: int|
                        0 <= i < s_start.len() && (#[trigger] s_start[i]).0 == sx as int
                            && s_start[i].1 == sy as int;
                    if i < s_start.len() - 1 {
                        assert(s1[i] == s_start[i]);
                        assert(stack_has(s1, sx as int, sy as int));
                        assert(stack_has(s_end, sx as int, sy as int));
                    } else {
                        assert((sx as int, sy as int) == (cx as int, cy as int));
                        assert(mat_at(m, sx as int, sy as int));
                    }
                }

                assert(9 * (w * h - grid_count(m, true)) + s_end.len() < 9 * (w * h - grid_count(
                    m_before,
                    true,
                )) + s_start.len());
            }
        }
    }

    proof {
        let m = is_checked.cells();
        assert(mat_closed(cells, fgc, mode, m)) by {
            assert forall|a: int, b: int, c: int, d: int|
                #![trigger mat_at(m, a, b), adjacent(mode, a, b, c, d)]
                mat_at(m, a, b) && adjacent(mode, a, b, c, d) && fg_at(
                    cells,
                    fgc,
                    c,
                    d,
                ) implies mat_at(m, c, d) by {
                assert(!stack_has(pixels_stack@, c, d));
            };
        };
        assert(mat_at(m, sx as int, sy as int));
        assert forall|a: int, b: int| #[trigger]
            mat_at(m, a, b) <==> (mat_at(m0, a, b) || (fg_at(cells, fgc, a, b) && connected(
                cells,
                fgc,
                mode,
                sx as int,
                sy as int,
                a,
                b,
            ))) by {
            if !mat_at(m, a, b) {
                if fg_at(cells, fgc, a, b) && connected(
                    cells,
                    fgc,
                    mode,
                    sx as int,
                    sy as int,
                    a,
                    b,
                ) {
                    let p = choose|p: Seq<(int, int)>|
                        fg_path(cells, fgc, mode, p) && p[0] == (sx as int, sy as int) && p[p.len()
                            - 1] == (a, b);
                    lemma_closed_reaches(cells, fgc, mode, m, p);
                }
            }
        };
    }
}

/// Decides whether the pixel at `(x, y)` is a local articulation point:
/// whether clearing it to background changes the number of connected
/// foreground components of its 3x3 neighborhood under `mode`.
pub fn is_local_articulation_point(
    image: &BinaryImage,
    x: usize,
    y: usize,
    mode: AdjacencyMode,
) -> (r: bool)
    requires
        image.wf(),
        x < image.spec_width(),
        y < image.spec_height(),
        image.spec_width() <= usize::MAX - 2,
        image.spec_height() <= usize::MAX - 2,
    ensures
        r == is_articulation(
            image.cells(),
            image.fg(),
            image.bg(),
            mode,
            x as int,
            y as int,
        ),
{
    let mut around = get_around(image, x, y);
    let components = count_components(&around, mode);
    around.set_bg(1, 1);
    let after = count_components(&around, mode);
    components != after
}

} // verus!
