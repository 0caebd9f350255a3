//! Rock formations: polylines whose consecutive corners span rectangles of
//! cells.

use crate::cell::{cell_of, spawn};
use crate::scene::Scene;
use vstd::prelude::*;

verus! {

/// `v` lies between `p` and `q`, whichever of the two is the smaller.
pub open spec fn between(p: int, v: int, q: int) -> bool {
    (p <= v <= q) || (q <= v <= p)
}

/// The cells of the axis-aligned rectangle that two corners span, both
/// corners included. For two corners in one row or one column this is the
/// straight line between them.
pub open spec fn rect(a: (int, int), b: (int, int)) -> Set<(int, int)> {
    Set::new(|c: (int, int)| between(a.0, c.0, b.0) && between(a.1, c.1, b.1))
}

/// The cells between corner `i` of a polyline and the next.
pub open spec fn segment(corners: Seq<(int, int)>, i: int) -> Set<(int, int)> {
    rect(corners[i], corners[i + 1])
}

/// The cells of the first `n` segments of a polyline.
pub open spec fn segments_before(corners: Seq<(int, int)>, n: int) -> Set<(int, int)> {
    Set::new(
        |c: (int, int)|
            exists|i: int|
                0 <= i < n && i + 1 < corners.len() && #[trigger] segment(corners, i).contains(c),
    )
}

/// The cells of a polyline: those of all its segments. A polyline of a
/// single corner has none.
pub open spec fn path_cells(corners: Seq<(int, int)>) -> Set<(int, int)> {
    segments_before(corners, corners.len() - 1)
}

/// The cells of the first `n` polylines.
pub open spec fn paths_before(paths: Seq<Seq<(int, int)>>, n: int) -> Set<(int, int)> {
    Set::new(
        |c: (int, int)|
            exists|j: int|
                0 <= j < n && j < paths.len() && #[trigger] path_cells(paths[j]).contains(c),
    )
}

/// The cells of a list of polylines: those of all of them.
pub open spec fn scene_cells(paths: Seq<Seq<(int, int)>>) -> Set<(int, int)> {
    paths_before(paths, paths.len() as int)
}

/// The cells of a rectangle that come before `(x, y)` when the rectangle is
/// walked column by column, each column from its least row.
pub open spec fn rect_before(a: (int, int), b: (int, int), x: int, y: int) -> Set<(int, int)> {
    Set::new(|c: (int, int)| rect(a, b).contains(c) && (c.0 < x || (c.0 == x && c.1 < y)))
}

/// The corners of a polyline as cells.
pub open spec fn corner_cells(corners: Seq<(i32, i32)>) -> Seq<(int, int)> {
    Seq::new(corners.len(), |i: int| cell_of(corners[i]))
}

impl Scene {
    /// `after` is this scene with rock recorded at every cell of `cells`.
    ///
    /// Sand and grain are as before. Each bound has moved as far as the
    /// cells ask and no further: it is the old bound, or the coordinate of
    /// one of the cells, whichever lies further out.
    pub open spec fn draws(self, cells: Set<(int, int)>, after: Scene) -> bool {
        &&& after.rocks == self.rocks.union(cells)
        &&& after.sands == self.sands
        &&& after.grain == self.grain
        &&& after.min_x <= self.min_x
        &&& after.max_x >= self.max_x
        &&& after.min_y <= self.min_y
        &&& after.max_y >= self.max_y
        &&& forall|c: (int, int)| #[trigger] cells.contains(c) ==> !after.out(c)
        &&& after.min_x == self.min_x || exists|c: (int, int)|
            #[trigger] cells.contains(c) && c.0 == after.min_x
        &&& after.max_x == self.max_x || exists|c: (int, int)|
            #[trigger] cells.contains(c) && c.0 == after.max_x
        &&& after.min_y == self.min_y || exists|c: (int, int)|
            #[trigger] cells.contains(c) && c.1 == after.min_y
        &&& after.max_y == self.max_y || exists|c: (int, int)|
            #[trigger] cells.contains(c) && c.1 == after.max_y
    }

    /// No grain has come to rest and the falling one stands at the spawn.
    pub open spec fn pristine(self) -> bool {
        self.sands == Set::<(int, int)>::empty() && self.grain == spawn()
    }
}

/// One more polyline adds its cells to those of the others.
pub proof fn lemma_scene_cells_push(paths: Seq<Seq<(int, int)>>, p: Seq<(int, int)>)
    ensures
        scene_cells(paths.push(p)) == scene_cells(paths).union(path_cells(p)),
{
    let more = paths.push(p);
    let both = scene_cells(paths).union(path_cells(p));
    assert forall|c: (int, int)| both.contains(c) implies scene_cells(more).contains(c) by {
        if path_cells(p).contains(c) {
            assert(path_cells(more[paths.len() as int]).contains(c));
        } else {
            let j = choose|j: int|
                0 <= j < paths.len() && #[trigger] path_cells(paths[j]).contains(c);
            assert(path_cells(more[j]).contains(c));
        }
    }
    assert forall|c: (int, int)| scene_cells(more).contains(c) implies both.contains(c) by {
        let j = choose|j: int| 0 <= j < more.len() && #[trigger] path_cells(more[j]).contains(c);
        if j < paths.len() {
            assert(path_cells(paths[j]).contains(c));
        }
    }
    assert(scene_cells(more) =~= both);
}

/// Drawing nothing changes nothing.
pub proof fn lemma_draws_nothing(s: Scene)
    ensures
        s.draws(Set::empty(), s),
{
    assert(s.rocks.union(Set::empty()) =~= s.rocks);
}

/// Recording one more rock draws one more cell.
pub proof fn lemma_draws_one_more(s: Scene, cells: Set<(int, int)>, mid: Scene, c: (int, int))
    requires
        s.draws(cells, mid),
    ensures
        s.draws(cells.insert(c), mid.with_rock(c)),
{
    let after = mid.with_rock(c);
    let more = cells.insert(c);
    assert(after.rocks =~= s.rocks.union(more));
    assert(more.contains(c));
    if after.min_x != s.min_x {
        if after.min_x != mid.min_x {
            assert(more.contains(c) && c.0 == after.min_x);
        } else {
            let d = choose|d: (int, int)| #[trigger] cells.contains(d) && d.0 == mid.min_x;
            assert(more.contains(d) && d.0 == after.min_x);
        }
    }
    if after.max_x != s.max_x {
        if after.max_x != mid.max_x {
            assert(more.contains(c) && c.0 == after.max_x);
        } else {
            let d = choose|d: (int, int)| #[trigger] cells.contains(d) && d.0 == mid.max_x;
            assert(more.contains(d) && d.0 == after.max_x);
        }
    }
    if after.min_y != s.min_y {
        if after.min_y != mid.min_y {
            assert(more.contains(c) && c.1 == after.min_y);
        } else {
            let d = choose|d: (int, int)| #[trigger] cells.contains(d) && d.1 == mid.min_y;
            assert(more.contains(d) && d.1 == after.min_y);
        }
    }
    if after.max_y != s.max_y {
        if after.max_y != mid.max_y {
            assert(more.contains(c) && c.1 == after.max_y);
        } else {
            let d = choose|d: (int, int)| #[trigger] cells.contains(d) && d.1 == mid.max_y;
            assert(more.contains(d) && d.1 == after.max_y);
        }
    }
}

/// Drawing one set of cells and then another draws their union.
pub proof fn lemma_draws_then(
    s: Scene,
    first: Set<(int, int)>,
    mid: Scene,
    second: Set<(int, int)>,
    after: Scene,
)
    requires
        s.draws(first, mid),
        mid.draws(second, after),
    ensures
        s.draws(first.union(second), after),
{
    let both = first.union(second);
    assert(after.rocks =~= s.rocks.union(both));
    if after.min_x != s.min_x {
        if after.min_x != mid.min_x {
            let d = choose|d: (int, int)| #[trigger] second.contains(d) && d.0 == after.min_x;
            assert(both.contains(d) && d.0 == after.min_x);
        } else {
            let d = choose|d: (int, int)| #[trigger] first.contains(d) && d.0 == mid.min_x;
            assert(both.contains(d) && d.0 == after.min_x);
        }
    }
    if after.max_x != s.max_x {
        if after.max_x != mid.max_x {
            let d = choose|d: (int, int)| #[trigger] second.contains(d) && d.0 == after.max_x;
            assert(both.contains(d) && d.0 == after.max_x);
        } else {
            let d = choose|d: (int, int)| #[trigger] first.contains(d) && d.0 == mid.max_x;
            assert(both.contains(d) && d.0 == after.max_x);
        }
    }
    if after.min_y != s.min_y {
        if after.min_y != mid.min_y {
            let d = choose|d: (int, int)| #[trigger] second.contains(d) && d.1 == after.min_y;
            assert(both.contains(d) && d.1 == after.min_y);
        } else {
            let d = choose|d: (int, int)| #[trigger] first.contains(d) && d.1 == mid.min_y;
            assert(both.contains(d) && d.1 == after.min_y);
        }
    }
    if after.max_y != s.max_y {
        if after.max_y != mid.max_y {
            let d = choose|d: (int, int)| #[trigger] second.contains(d) && d.1 == after.max_y;
            assert(both.contains(d) && d.1 == after.max_y);
        } else {
            let d = choose|d: (int, int)| #[trigger] first.contains(d) && d.1 == mid.max_y;
            assert(both.contains(d) && d.1 == after.max_y);
        }
    }
}

/// What is drawn is pinned: two scenes drawn from one scene with the same
/// cells are the same scene.
pub proof fn lemma_draws_unique(s: Scene, cells: Set<(int, int)>, p: Scene, q: Scene)
    requires
        s.draws(cells, p),
        s.draws(cells, q),
    ensures
        p == q,
{
    assert(p =~= q);
}

} // verus!
