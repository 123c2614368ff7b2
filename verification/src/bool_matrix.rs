//! A rectangular matrix of booleans, used as transient per-pass bookkeeping
//! (visited / marked / deleted flags) by the thinning algorithms.

use vstd::prelude::*;

use crate::grid::rect;

verus! {

pub struct BoolMatrix {
    data: Vec<Vec<bool>>,
}

impl BoolMatrix {
    /// The flag matrix, row-major: `cells()[y][x]` is the flag at `(x, y)`.
    pub closed spec fn cells(&self) -> Seq<Seq<bool>> {
        self.data@.map_values(|r: Vec<bool>| r@)
    }

    pub open spec fn spec_width(&self) -> int {
        self.cells()[0].len() as int
    }

    pub open spec fn spec_height(&self) -> int {
        self.cells().len() as int
    }

    pub open spec fn wf(&self) -> bool {
        &&& self.spec_height() >= 1
        &&& self.spec_width() >= 1
        &&& rect(self.cells(), self.spec_width(), self.spec_height())
    }

    pub fn new(width: usize, height: usize, default_value: bool) -> (r: BoolMatrix)
        requires
            width >= 1,
            height >= 1,
        ensures
            r.wf(),
            r.spec_width() == width,
            r.spec_height() == height,
            forall|x: int, y: int|
                0 <= x < width && 0 <= y < height ==> r.cells()[y][x] == default_value,
    {
        let mut rows: Vec<Vec<bool>> = Vec::new();
        let mut y: usize = 0;
        while y < height
            invariant
                y <= height,
                rows@.len() == y,
                forall|j: int| 0 <= j < y ==> (#[trigger] rows@[j])@.len() == width,
                forall|j: int, i: int|
                    0 <= j < y && 0 <= i < width ==> #[trigger] rows@[j]@[i] == default_value,
            decreases height - y,
        {
            let mut row: Vec<bool> = Vec::new();
            let mut x: usize = 0;
            while x < width
                invariant
                    x <= width,
                    row@.len() == x,
                    forall|i: int| 0 <= i < x ==> row@[i] == default_value,
                decreases width - x,
            {
                row.push(default_value);
                x = x + 1;
            }
            rows.push(row);
            y = y + 1;
        }
        let r = BoolMatrix { data: rows };
        proof {
            assert(forall|j: int| 0 <= j < height
                ==> r.cells()[j] == (#[trigger] r.data@[j])@);
        }
        r
    }

    pub fn check(&self, x: usize, y: usize) -> (r: bool)
        requires
            self.wf(),
            x < self.spec_width(),
            y < self.spec_height(),
        ensures
            r == self.cells()[y as int][x as int],
    {
        proof {
            assert(self.cells()[y as int] == self.data@[y as int]@);
        }
        self.data[y][x]
    }

    pub fn set(&mut self, x: usize, y: usize)
        requires
            old(self).wf(),
            x < old(self).spec_width(),
            y < old(self).spec_height(),
        ensures
            final(self).wf(),
            final(self).cells() == old(self).cells().update(
                y as int,
                old(self).cells()[y as int].update(x as int, true),
            ),
    {
        proof {
            assert(self.cells()[y as int] == self.data@[y as int]@);
        }
        self.data[y][x] = true;
        proof {
            assert(final(self).cells() =~= old(self).cells().update(
                y as int,
                old(self).cells()[y as int].update(x as int, true),
            )) by {
                assert(forall|j: int| 0 <= j < self.data@.len()
                    ==> final(self).cells()[j] == (#[trigger] self.data@[j])@);
                assert(forall|j: int| 0 <= j < old(self).data@.len()
                    ==> old(self).cells()[j] == (#[trigger] old(self).data@[j])@);
            };
        }
    }
}

} // verus!
