//! The mathematical model of a scene and of one step of the simulation.
//!
//! A [`Scene`] is what a `World` stands for in contracts: two sets of cells,
//! the grain that is falling, and the bounds of what has been recorded.
//! Coordinates are unbounded integers here; `y` grows downward.

use crate::cell::{in_grid, span, spawn};
use vstd::prelude::*;
use vstd::set_lib::{lemma_int_range, lemma_map_size, lemma_set_disjoint_lens, set_int_range};

verus! {

/// What one step of the simulation reports.
pub enum Outcome {
    /// The grain fell one row and is still falling.
    Moved,
    /// The grain came to rest and a new grain stands at the spawn cell.
    Settled,
    /// The grain would have left the bounds at this cell; nothing changed.
    Escaped((int, int)),
    /// The grain came to rest at the spawn cell itself.
    Clogged,
}

/// The state of the simulation.
#[verifier::ext_equal]
pub struct Scene {
    /// Cells of rock.
    pub rocks: Set<(int, int)>,
    /// Cells where a grain has come to rest.
    pub sands: Set<(int, int)>,
    /// The cell of the grain that is falling.
    pub grain: (int, int),
    /// Least column recorded.
    pub min_x: int,
    /// Greatest column recorded.
    pub max_x: int,
    /// Least row recorded, never below the spawn row.
    pub min_y: int,
    /// Greatest row recorded; the floor row once a floor has been added.
    pub max_y: int,
}

impl Scene {
    /// The scene before anything is recorded: no rock, no sand, a grain at
    /// the spawn cell, no column at all and the spawn row alone.
    pub open spec fn empty() -> Scene {
        Scene {
            rocks: Set::empty(),
            sands: Set::empty(),
            grain: spawn(),
            min_x: i32::MAX as int,
            max_x: i32::MIN as int,
            min_y: 0,
            max_y: 0,
        }
    }

    /// Rock or sand at `c`.
    pub open spec fn occupied(self, c: (int, int)) -> bool {
        self.rocks.contains(c) || self.sands.contains(c)
    }

    /// Rock or sand at `c`, or `c` on the floor row.
    pub open spec fn occupied_floored(self, c: (int, int)) -> bool {
        self.occupied(c) || c.1 == self.max_y
    }

    /// `c` lies outside the bounds.
    pub open spec fn out(self, c: (int, int)) -> bool {
        c.0 < self.min_x || c.0 > self.max_x || c.1 > self.max_y || c.1 < self.min_y
    }

    /// The cell straight below the grain: the first it tries.
    pub open spec fn below(self) -> (int, int) {
        (self.grain.0, self.grain.1 + 1)
    }

    /// The cell below and to the left of the grain: the second it tries.
    pub open spec fn below_left(self) -> (int, int) {
        (self.grain.0 - 1, self.grain.1 + 1)
    }

    /// The cell below and to the right of the grain: the third it tries.
    pub open spec fn below_right(self) -> (int, int) {
        (self.grain.0 + 1, self.grain.1 + 1)
    }

    /// The bounds widened, by minimum and maximum on each axis, to hold `c`.
    pub open spec fn grown(self, c: (int, int)) -> Scene {
        Scene {
            min_x: if c.0 < self.min_x { c.0 } else { self.min_x },
            max_x: if c.0 > self.max_x { c.0 } else { self.max_x },
            min_y: if c.1 < self.min_y { c.1 } else { self.min_y },
            max_y: if c.1 > self.max_y { c.1 } else { self.max_y },
            ..self
        }
    }

    /// A rock recorded at `c`.
    pub open spec fn with_rock(self, c: (int, int)) -> Scene {
        Scene { rocks: self.rocks.insert(c), ..self.grown(c) }
    }

    /// A grain at rest recorded at `c`.
    pub open spec fn with_sand(self, c: (int, int)) -> Scene {
        Scene { sands: self.sands.insert(c), ..self.grown(c) }
    }

    /// The grain moved to `c`.
    pub open spec fn moved_to(self, c: (int, int)) -> Scene {
        Scene { grain: c, ..self }
    }

    /// The cells of the floor: one rock two rows below the deepest row, under
    /// every recorded column.
    pub open spec fn floor_cells(self) -> Set<(int, int)> {
        Set::new(|c: (int, int)| self.min_x <= c.0 <= self.max_x && c.1 == self.max_y + 2)
    }

    /// The cells of the floor in the columns before `x`.
    pub open spec fn floor_cells_before(self, x: int) -> Set<(int, int)> {
        Set::new(
            |c: (int, int)| self.min_x <= c.0 <= self.max_x && c.0 < x && c.1 == self.max_y + 2,
        )
    }

    /// How many columns the bounds hold.
    pub open spec fn width(self) -> nat {
        span(self.min_x, self.max_x)
    }

    /// The floor added and the deepest row moved down to it.
    pub open spec fn with_floor(self) -> Scene {
        Scene { rocks: self.rocks.union(self.floor_cells()), max_y: self.max_y + 2, ..self }
    }

    /// One step where nothing lies below the scene.
    ///
    /// The three cells below the grain are tried in order. A cell outside the
    /// bounds ends the step with `Escaped` before any later cell is looked
    /// at; the first free cell takes the grain; with all three taken the
    /// grain comes to rest where it is and a new one stands at the spawn.
    /// A grain that comes to rest has cells of the bounds below it on both
    /// sides, so that a valid scene keeps its bounds.
    pub open spec fn step_open(self) -> (Scene, Outcome) {
        if self.out(self.below()) {
            (self, Outcome::Escaped(self.below()))
        } else if !self.occupied(self.below()) {
            (self.moved_to(self.below()), Outcome::Moved)
        } else if self.out(self.below_left()) {
            (self, Outcome::Escaped(self.below_left()))
        } else if !self.occupied(self.below_left()) {
            (self.moved_to(self.below_left()), Outcome::Moved)
        } else if self.out(self.below_right()) {
            (self, Outcome::Escaped(self.below_right()))
        } else if !self.occupied(self.below_right()) {
            (self.moved_to(self.below_right()), Outcome::Moved)
        } else {
            (self.with_sand(self.grain).moved_to(spawn()), Outcome::Settled)
        }
    }

    /// One step above a floor.
    ///
    /// The same three cells are tried in the same order, the floor row
    /// counting as taken; the bounds grow to hold wherever the grain goes.
    /// With all three taken the grain comes to rest: at the spawn cell this
    /// is `Clogged`, anywhere else a new grain stands at the spawn.
    pub open spec fn step_floored(self) -> (Scene, Outcome) {
        if !self.occupied_floored(self.below()) {
            (self.grown(self.below()).moved_to(self.below()), Outcome::Moved)
        } else if !self.occupied_floored(self.below_left()) {
            (self.grown(self.below_left()).moved_to(self.below_left()), Outcome::Moved)
        } else if !self.occupied_floored(self.below_right()) {
            (self.grown(self.below_right()).moved_to(self.below_right()), Outcome::Moved)
        } else if self.grain == spawn() {
            (self.with_sand(self.grain), Outcome::Clogged)
        } else {
            (self.with_sand(self.grain).moved_to(spawn()), Outcome::Settled)
        }
    }

    /// The cells below the grain have machine coordinates, so that a step
    /// can look at them.
    pub open spec fn can_step(self) -> bool {
        in_grid(self.below_left()) && in_grid(self.below_right())
    }

    /// The grain stands above the floor row.
    pub open spec fn floored(self) -> bool {
        self.grain.1 < self.max_y
    }

    /// What holds of every scene that the simulation reaches.
    ///
    /// Both sets are finite and lie within the bounds, which hold the spawn
    /// row. Rock and sand share no cell but possibly the spawn. The grain
    /// lies in the triangle that opens downward from the spawn, not below the
    /// deepest row, and on no rock or sand unless it stands at the spawn.
    pub open spec fn valid(self) -> bool {
        &&& self.rocks.finite()
        &&& self.sands.finite()
        &&& self.min_y <= 0 <= self.max_y
        &&& forall|c: (int, int)| #[trigger] self.rocks.contains(c) ==> !self.out(c)
        &&& forall|c: (int, int)| #[trigger] self.sands.contains(c) ==> !self.out(c)
        &&& forall|c: (int, int)|
            self.rocks.contains(c) && #[trigger] self.sands.contains(c) ==> c == spawn()
        &&& 0 <= self.grain.1 <= self.max_y
        &&& spawn().0 - self.grain.1 <= self.grain.0 <= spawn().0 + self.grain.1
        &&& self.occupied(self.grain) ==> self.grain == spawn()
    }
}

/// In a valid scene no grain rests on rock and the falling grain stands on
/// neither, the spawn cell alone excepted: a grain starts there even where
/// the spawn is rock, and comes to rest there when it clogs.
pub proof fn lemma_valid_apart(s: Scene)
    requires
        s.valid(),
    ensures
        s.rocks.intersect(s.sands).subset_of(set![spawn()]),
        !s.rocks.contains(spawn()) ==> s.rocks.disjoint(s.sands),
        s.grain != spawn() ==> !s.rocks.contains(s.grain) && !s.sands.contains(s.grain),
{
}

/// The floor is finite, has one cell for each column of the bounds, and
/// none of them held rock before; adding it keeps a valid scene valid and
/// puts the grain above the floor row.
pub proof fn lemma_floor_len(s: Scene)
    requires
        s.valid(),
    ensures
        s.floor_cells().finite(),
        s.floor_cells().len() == s.width(),
        s.floor_cells().disjoint(s.rocks),
        s.with_floor().rocks.len() == s.rocks.len() + s.width(),
        s.with_floor().valid(),
        s.with_floor().floored(),
{
    let columns = set_int_range(s.min_x, s.max_x + 1);
    let f = |x: int| (x, s.max_y + 2);
    if s.min_x <= s.max_x {
        lemma_int_range(s.min_x, s.max_x + 1);
    } else {
        assert(columns =~= Set::<int>::empty());
    }
    assert forall|c: (int, int)| columns.map(f).contains(c) <==> s.floor_cells().contains(c) by {
        if s.floor_cells().contains(c) {
            assert(columns.contains(c.0) && c == f(c.0));
        }
    }
    assert(columns.map(f) =~= s.floor_cells());
    lemma_map_size(columns, s.floor_cells(), f);
    lemma_set_disjoint_lens(s.rocks, s.floor_cells());
    assert(s.rocks + s.floor_cells() == s.with_floor().rocks);
}

/// A step over the void keeps a valid scene valid and its bounds and rocks
/// as they were, and takes no grain away from where it rests.
pub proof fn lemma_step_open_valid(s: Scene)
    requires
        s.valid(),
    ensures
        s.step_open().0.valid(),
        s.sands.subset_of(s.step_open().0.sands),
        s.step_open().0.rocks == s.rocks,
        s.step_open().0.min_x == s.min_x,
        s.step_open().0.max_x == s.max_x,
        s.step_open().0.min_y == s.min_y,
        s.step_open().0.max_y == s.max_y,
{
}

/// A step above a floor keeps a valid scene valid, the grain above the floor,
/// and the rocks and both row bounds as they were, and takes no grain away
/// from where it rests.
pub proof fn lemma_step_floored_valid(s: Scene)
    requires
        s.valid(),
        s.floored(),
    ensures
        s.step_floored().0.valid(),
        s.step_floored().0.floored(),
        s.sands.subset_of(s.step_floored().0.sands),
        s.step_floored().0.rocks == s.rocks,
        s.step_floored().0.min_y == s.min_y,
        s.step_floored().0.max_y == s.max_y,
{
}

} // verus!
