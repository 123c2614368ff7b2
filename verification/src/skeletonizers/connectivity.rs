//! The mathematical model of pixel connectivity.
//!
//! A foreground path is a sequence of in-bounds foreground cells in which
//! consecutive cells are adjacent under the chosen adjacency mode; two cells
//! are connected when a foreground path joins them. The number of connected
//! components of a grid is defined by counting, in row-major scan order, the
//! cells that are the first of their component: `component_count` adds one
//! for every foreground cell that no earlier foreground cell is connected to.

use vstd::prelude::*;

use crate::binary_image::PixelColor;
use crate::grid::in_grid;
use crate::skeletonizers::AdjacencyMode;

verus! {

/// `(x, y)` is an in-bounds cell holding the foreground label `fgc`.
pub open spec fn fg_at(cells: Seq<Seq<PixelColor>>, fgc: PixelColor, x: int, y: int) -> bool {
    in_grid(cells, x, y) && cells[y][x] == fgc
}

/// `(x, y)` is an in-bounds flag of `m` that is set.
pub open spec fn mat_at(m: Seq<Seq<bool>>, x: int, y: int) -> bool {
    in_grid(m, x, y) && m[y][x]
}

pub open spec fn adjacent(mode: AdjacencyMode, x1: int, y1: int, x2: int, y2: int) -> bool {
    let dx = x2 - x1;
    let dy = y2 - y1;
    &&& !(dx == 0 && dy == 0)
    &&& -1 <= dx <= 1
    &&& -1 <= dy <= 1
    &&& (mode == AdjacencyMode::Eight || dx == 0 || dy == 0)
}

/// A non-empty sequence of foreground cells whose consecutive members are
/// adjacent.
pub open spec fn fg_path(
    cells: Seq<Seq<PixelColor>>,
    fgc: PixelColor,
    mode: AdjacencyMode,
    p: Seq<(int, int)>,
) -> bool {
    &&& p.len() >= 1
    &&& forall|i: int| 0 <= i < p.len() ==> fg_at(cells, fgc, (#[trigger] p[i]).0, p[i].1)
    &&& forall|i: int|
        0 <= i < p.len() - 1 ==> adjacent(
            mode,
            (#[trigger] p[i]).0,
            p[i].1,
            p[i + 1].0,
            p[i + 1].1,
        )
}

/// A foreground path leads from `(x1, y1)` to `(x2, y2)`.
pub open spec fn connected(
    cells: Seq<Seq<PixelColor>>,
    fgc: PixelColor,
    mode: AdjacencyMode,
    x1: int,
    y1: int,
    x2: int,
    y2: int,
) -> bool {
    exists|p: Seq<(int, int)>|
        fg_path(cells, fgc, mode, p) && p[0] == (x1, y1) && p[p.len() - 1] == (x2, y2)
}

pub proof fn lemma_connected_refl(
    cells: Seq<Seq<PixelColor>>,
    fgc: PixelColor,
    mode: AdjacencyMode,
    x: int,
    y: int,
)
    requires
        fg_at(cells, fgc, x, y),
    ensures
        connected(cells, fgc, mode, x, y, x, y),
{
    let p = seq![(x, y)];
    assert(fg_path(cells, fgc, mode, p));
    assert(p[0] == (x, y) && p[p.len() - 1] == (x, y));
}

#[verifier::rlimit(50)]
pub proof fn lemma_connected_trans(
    cells: Seq<Seq<PixelColor>>,
    fgc: PixelColor,
    mode: AdjacencyMode,
    x1: int,
    y1: int,
    x2: int,
    y2: int,
    x3: int,
    y3: int,
)
    requires
        connected(cells, fgc, mode, x1, y1, x2, y2),
        connected(cells, fgc, mode, x2, y2, x3, y3),
    ensures
        connected(cells, fgc, mode, x1, y1, x3, y3),
{
    let p1 = choose|p: Seq<(int, int)>|
        fg_path(cells, fgc, mode, p) && p[0] == (x1, y1) && p[p.len() - 1] == (x2, y2);
    let p2 = choose|p: Seq<(int, int)>|
        fg_path(cells, fgc, mode, p) && p[0] == (x2, y2) && p[p.len() - 1] == (x3, y3);
    let l1 = p1.len() as int;
    let l2 = p2.len() as int;
    let q = Seq::new((l1 + l2 - 1) as nat, |i: int| if i < l1 { p1[i] } else { p2[i - l1 + 1] });
    assert forall|i: int| 0 <= i < q.len() implies fg_at(
        cells,
        fgc,
        (#[trigger] q[i]).0,
        q[i].1,
    ) by {
        if i < l1 {
            assert(q[i] == p1[i]);
            assert(fg_at(cells, fgc, p1[i].0, p1[i].1));
        } else {
            assert(q[i] == p2[i - l1 + 1]);
            assert(fg_at(cells, fgc, p2[i - l1 + 1].0, p2[i - l1 + 1].1));
        }
    };
    assert forall|i: int| 0 <= i < q.len() - 1 implies adjacent(
        mode,
        (#[trigger] q[i]).0,
        q[i].1,
        q[i + 1].0,
        q[i + 1].1,
    ) by {
        if i < l1 - 1 {
            assert(q[i] == p1[i] && q[i + 1] == p1[i + 1]);
            assert(adjacent(mode, p1[i].0, p1[i].1, p1[i + 1].0, p1[i + 1].1));
        } else if i == l1 - 1 {
            assert(q[i] == p1[l1 - 1]);
            assert(p1[l1 - 1] == p2[0]);
            assert(q[i + 1] == p2[1]);
            assert(adjacent(mode, p2[0].0, p2[0].1, p2[1].0, p2[1].1));
        } else {
            let j = i - l1 + 1;
            assert(q[i] == p2[j] && q[i + 1] == p2[j + 1]);
            assert(adjacent(mode, p2[j].0, p2[j].1, p2[j + 1].0, p2[j + 1].1));
        }
    };
    assert(fg_path(cells, fgc, mode, q));
    assert(q[0] == (x1, y1) && q[q.len() - 1] == (x3, y3));
}

pub proof fn lemma_connected_step(
    cells: Seq<Seq<PixelColor>>,
    fgc: PixelColor,
    mode: AdjacencyMode,
    x1: int,
    y1: int,
    x2: int,
    y2: int,
    x3: int,
    y3: int,
)
    requires
        connected(cells, fgc, mode, x1, y1, x2, y2),
        adjacent(mode, x2, y2, x3, y3),
        fg_at(cells, fgc, x3, y3),
    ensures
        connected(cells, fgc, mode, x1, y1, x3, y3),
{
    let p = choose|p: Seq<(int, int)>|
        fg_path(cells, fgc, mode, p) && p[0] == (x1, y1) && p[p.len() - 1] == (x2, y2);
    let q = p.push((x3, y3));
    assert(forall|i: int| 0 <= i < p.len() ==> q[i] == p[i]);
    assert(q[q.len() - 1] == (x3, y3));
    assert forall|i: int| 0 <= i < q.len() implies fg_at(
        cells,
        fgc,
        (#[trigger] q[i]).0,
        q[i].1,
    ) by {
        if i < p.len() {
            assert(fg_at(cells, fgc, p[i].0, p[i].1));
        }
    };
    assert forall|i: int| 0 <= i < q.len() - 1 implies adjacent(
        mode,
        (#[trigger] q[i]).0,
        q[i].1,
        q[i + 1].0,
        q[i + 1].1,
    ) by {
        if i < p.len() - 1 {
            assert(adjacent(mode, p[i].0, p[i].1, p[i + 1].0, p[i + 1].1));
        } else {
            assert(q[i] == p[p.len() - 1]);
        }
    };
    assert(fg_path(cells, fgc, mode, q));
    assert(q[0] == (x1, y1));
}

/// Every foreground neighbor of a set flag is itself a set flag.
pub open spec fn mat_closed(
    cells: Seq<Seq<PixelColor>>,
    fgc: PixelColor,
    mode: AdjacencyMode,
    m: Seq<Seq<bool>>,
) -> bool {
    forall|x: int, y: int, u: int, v: int|
        #![trigger mat_at(m, x, y), adjacent(mode, x, y, u, v)]
        mat_at(m, x, y) && adjacent(mode, x, y, u, v) && fg_at(cells, fgc, u, v) ==> mat_at(
            m,
            u,
            v,
        )
}

/// A set of flags that is closed under foreground adjacency and contains the
/// first cell of a foreground path contains its last cell too.
pub proof fn lemma_closed_reaches(
    cells: Seq<Seq<PixelColor>>,
    fgc: PixelColor,
    mode: AdjacencyMode,
    m: Seq<Seq<bool>>,
    p: Seq<(int, int)>,
)
    requires
        mat_closed(cells, fgc, mode, m),
        fg_path(cells, fgc, mode, p),
        mat_at(m, p[0].0, p[0].1),
    ensures
        mat_at(m, p[p.len() - 1].0, p[p.len() - 1].1),
    decreases p.len(),
{
    if p.len() > 1 {
        assert(adjacent(mode, p[0].0, p[0].1, p[1].0, p[1].1));
        assert(fg_at(cells, fgc, p[1].0, p[1].1));
        assert(mat_at(m, p[1].0, p[1].1));
        let q = p.subrange(1, p.len() as int);
        assert(forall|i: int| 0 <= i < q.len() ==> q[i] == p[i + 1]);
        assert forall|i: int| 0 <= i < q.len() implies fg_at(
            cells,
            fgc,
            (#[trigger] q[i]).0,
            q[i].1,
        ) by {
            assert(fg_at(cells, fgc, p[i + 1].0, p[i + 1].1));
        };
        assert forall|i: int| 0 <= i < q.len() - 1 implies adjacent(
            mode,
            (#[trigger] q[i]).0,
            q[i].1,
            q[i + 1].0,
            q[i + 1].1,
        ) by {
            assert(adjacent(mode, p[i + 1].0, p[i + 1].1, p[i + 2].0, p[i + 2].1));
        };
        assert(fg_path(cells, fgc, mode, q));
        lemma_closed_reaches(cells, fgc, mode, m, q);
    }
}

/// The row-major rank of cell `(x, y)` in a grid `w` cells wide.
pub open spec fn ord(w: int, x: int, y: int) -> int {
    y * w + x
}

/// `(x, y)` is the first cell of its connected component in scan order.
pub open spec fn is_seed(
    cells: Seq<Seq<PixelColor>>,
    fgc: PixelColor,
    mode: AdjacencyMode,
    w: int,
    x: int,
    y: int,
) -> bool {
    &&& fg_at(cells, fgc, x, y)
    &&& forall|u: int, v: int|
        fg_at(cells, fgc, u, v) && #[trigger] connected(cells, fgc, mode, u, v, x, y) ==> ord(
            w,
            u,
            v,
        ) >= ord(w, x, y)
}

/// How many seeds have rank below `n`.
pub open spec fn seeds_below(
    cells: Seq<Seq<PixelColor>>,
    fgc: PixelColor,
    mode: AdjacencyMode,
    w: int,
    n: nat,
) -> nat
    decreases n,
{
    if n == 0 || w < 1 {
        0
    } else {
        seeds_below(cells, fgc, mode, w, (n - 1) as nat) + if is_seed(
            cells,
            fgc,
            mode,
            w,
            ((n - 1) as int) % w,
            ((n - 1) as int) / w,
        ) {
            1nat
        } else {
            0nat
        }
    }
}

/// The number of connected foreground components of a `w` by `h` grid.
pub open spec fn component_count(
    cells: Seq<Seq<PixelColor>>,
    fgc: PixelColor,
    mode: AdjacencyMode,
    w: int,
    h: int,
) -> nat {
    seeds_below(cells, fgc, mode, w, (w * h) as nat)
}

pub proof fn lemma_seeds_below_le(
    cells: Seq<Seq<PixelColor>>,
    fgc: PixelColor,
    mode: AdjacencyMode,
    w: int,
    n: nat,
)
    ensures
        seeds_below(cells, fgc, mode, w, n) <= n,
    decreases n,
{
    if n > 0 && w >= 1 {
        lemma_seeds_below_le(cells, fgc, mode, w, (n - 1) as nat);
    }
}

} // verus!
