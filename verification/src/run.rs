//! Runs of the simulation: what holds of any number of steps.
//!
//! Over the void a run ends: a grain leaves the bounds, or a grain comes to
//! rest at the spawn cell, after which every step reports `Settled` and
//! nothing changes any more. Above a floor a run always clogs.

use crate::cell::{span, spawn};
use crate::scene::{
    lemma_floor_len, lemma_step_floored_valid, lemma_step_open_valid, Outcome, Scene,
};
use vstd::prelude::*;
use vstd::set_lib::lemma_set_subset_finite;

verus! {

/// The cells with a column from `x0` to `x1` and a row from `y0` to `y1`.
pub open spec fn block(x0: int, x1: int, y0: int, y1: int) -> Set<(int, int)> {
    Set::new(|c: (int, int)| x0 <= c.0 <= x1 && y0 <= c.1 <= y1)
}

/// A stretch of one column has finitely many cells.
pub proof fn lemma_column_finite(x: int, y0: int, y1: int)
    ensures
        block(x, x, y0, y1).finite(),
    decreases span(y0, y1),
{
    if y1 < y0 {
        assert(block(x, x, y0, y1) =~= Set::<(int, int)>::empty());
    } else {
        lemma_column_finite(x, y0, y1 - 1);
        assert(block(x, x, y0, y1) =~= block(x, x, y0, y1 - 1).insert((x, y1)));
    }
}

/// A block has finitely many cells.
pub proof fn lemma_block_finite(x0: int, x1: int, y0: int, y1: int)
    ensures
        block(x0, x1, y0, y1).finite(),
    decreases span(x0, x1),
{
    if x1 < x0 {
        assert(block(x0, x1, y0, y1) =~= Set::<(int, int)>::empty());
    } else {
        lemma_block_finite(x0, x1 - 1, y0, y1);
        lemma_column_finite(x1, y0, y1);
        assert(block(x0, x1, y0, y1) =~= block(x0, x1 - 1, y0, y1).union(block(x1, x1, y0, y1)));
    }
}

impl Scene {
    /// The scene after `n` steps over the void.
    pub open spec fn run_open(self, n: nat) -> Scene
        decreases n,
    {
        if n == 0 {
            self
        } else {
            self.step_open().0.run_open((n - 1) as nat)
        }
    }

    /// The scene after `n` steps above a floor.
    pub open spec fn run_floored(self, n: nat) -> Scene
        decreases n,
    {
        if n == 0 {
            self
        } else {
            self.step_floored().0.run_floored((n - 1) as nat)
        }
    }

    /// How many of the first `n` steps over the void report `Settled`.
    pub open spec fn settles_open(self, n: nat) -> nat
        decreases n,
    {
        if n == 0 {
            0
        } else {
            let here: nat = if self.step_open().1 == Outcome::Settled {
                1
            } else {
                0
            };
            here + self.step_open().0.settles_open((n - 1) as nat)
        }
    }

    /// Over the void, the grain stands at the spawn cell and the step from
    /// here lets it come to rest there: the source is blocked.
    pub open spec fn source_blocked(self) -> bool {
        self.grain == spawn() && self.step_open().1 == Outcome::Settled
    }

    /// A run over the void goes on from here: a step can be taken, and it
    /// neither escapes nor lets a grain rest at the spawn.
    pub open spec fn goes_on_open(self) -> bool {
        self.can_step() && !(self.step_open().1 is Escaped) && !self.source_blocked()
    }

    /// A run above a floor goes on from here: a step can be taken, and it
    /// does not clog.
    pub open spec fn goes_on_floored(self) -> bool {
        self.can_step() && self.step_floored().1 != Outcome::Clogged
    }

    /// A run over the void from this scene goes on for `n` steps and no
    /// further.
    pub open spec fn run_open_stops_at(self, n: nat) -> bool {
        &&& !self.run_open(n).goes_on_open()
        &&& forall|k: nat| k < n ==> (#[trigger] self.run_open(k)).goes_on_open()
    }

    /// A run above a floor from this scene goes on for `n` steps and no
    /// further.
    pub open spec fn run_floored_stops_at(self, n: nat) -> bool {
        &&& !self.run_floored(n).goes_on_floored()
        &&& forall|k: nat| k < n ==> (#[trigger] self.run_floored(k)).goes_on_floored()
    }

    /// The cells within the bounds.
    pub open spec fn bounds_cells(self) -> Set<(int, int)> {
        block(self.min_x, self.max_x, self.min_y, self.max_y)
    }

    /// The cells above the floor row that a grain can reach at all: those of
    /// the triangle that opens downward from the spawn.
    pub open spec fn cone_cells(self) -> Set<(int, int)> {
        Set::new(
            |c: (int, int)|
                0 <= c.1 < self.max_y && spawn().0 - c.1 <= c.0 <= spawn().0 + c.1,
        )
    }

    /// A bound on the steps that a run over the void still takes: each cell
    /// within the bounds that holds no sand can take one grain, and a grain
    /// falls through fewer rows than the bounds have.
    pub open spec fn steps_left_open(self) -> nat {
        (self.bounds_cells().difference(self.sands).len() * (self.max_y + 1) + (self.max_y
            - self.grain.1)) as nat
    }

    /// A bound on the steps that a run above a floor still takes before it
    /// clogs.
    pub open spec fn steps_left_floored(self) -> nat {
        (self.cone_cells().difference(self.sands).len() * (self.max_y + 1) + (self.max_y
            - self.grain.1)) as nat
    }
}

/// The cells that a grain can reach above a floor are finitely many.
pub proof fn lemma_cone_finite(s: Scene)
    ensures
        s.cone_cells().finite(),
{
    let around = block(spawn().0 - s.max_y, spawn().0 + s.max_y, 0, s.max_y);
    lemma_block_finite(spawn().0 - s.max_y, spawn().0 + s.max_y, 0, s.max_y);
    assert(s.cone_cells().subset_of(around));
    lemma_set_subset_finite(around, s.cone_cells());
}

/// A step over the void that neither escapes nor lets a grain rest at the
/// spawn brings the run nearer to its end.
pub proof fn lemma_step_open_progress(s: Scene)
    requires
        s.valid(),
        !(s.step_open().1 is Escaped),
        !s.source_blocked(),
    ensures
        s.step_open().0.steps_left_open() < s.steps_left_open(),
{
    let t = s.step_open().0;
    let room = s.bounds_cells().difference(s.sands);
    lemma_block_finite(s.min_x, s.max_x, s.min_y, s.max_y);
    if s.step_open().1 == Outcome::Settled {
        assert(room.contains(s.grain));
        assert(t.bounds_cells().difference(t.sands) =~= room.remove(s.grain));
        let left = room.len() as int;
        let rows = s.max_y + 1;
        assert((left - 1) * rows == left * rows - rows) by (nonlinear_arith);
    } else {
        assert(t.bounds_cells().difference(t.sands) =~= room);
    }
}

/// A step above a floor that does not clog brings the run nearer to its end.
pub proof fn lemma_step_floored_progress(s: Scene)
    requires
        s.valid(),
        s.floored(),
        s.step_floored().1 != Outcome::Clogged,
    ensures
        s.step_floored().0.steps_left_floored() < s.steps_left_floored(),
{
    let t = s.step_floored().0;
    let room = s.cone_cells().difference(s.sands);
    lemma_cone_finite(s);
    assert(t.cone_cells() =~= s.cone_cells());
    if s.step_floored().1 == Outcome::Settled {
        assert(room.contains(s.grain));
        assert(t.cone_cells().difference(t.sands) =~= room.remove(s.grain));
        let left = room.len() as int;
        let rows = s.max_y + 1;
        assert((left - 1) * rows == left * rows - rows) by (nonlinear_arith);
    } else {
        assert(t.cone_cells().difference(t.sands) =~= room);
    }
}

/// Any number of steps over the void keeps a valid scene valid, with the
/// rock and the bounds that it had.
pub proof fn lemma_run_open_valid(s: Scene, n: nat)
    requires
        s.valid(),
    ensures
        s.run_open(n).valid(),
        s.run_open(n).rocks == s.rocks,
        s.run_open(n).min_x == s.min_x,
        s.run_open(n).max_x == s.max_x,
        s.run_open(n).min_y == s.min_y,
        s.run_open(n).max_y == s.max_y,
    decreases n,
{
    if n > 0 {
        lemma_step_open_valid(s);
        lemma_run_open_valid(s.step_open().0, (n - 1) as nat);
    }
}

/// Any number of steps above a floor keeps a valid scene valid and its grain
/// above the floor, with the rock and the floor row that it had: no grain
/// ever passes the floor.
pub proof fn lemma_run_floored_valid(s: Scene, n: nat)
    requires
        s.valid(),
        s.floored(),
    ensures
        s.run_floored(n).valid(),
        s.run_floored(n).floored(),
        s.run_floored(n).rocks == s.rocks,
        s.run_floored(n).min_y == s.min_y,
        s.run_floored(n).max_y == s.max_y,
    decreases n,
{
    if n > 0 {
        lemma_step_floored_valid(s);
        lemma_run_floored_valid(s.step_floored().0, (n - 1) as nat);
    }
}

/// In a valid scene whose deepest row lies more than five hundred rows
/// above the last row of the grid, every cell below the grain has machine
/// coordinates: the grain is never further from the spawn column than it is
/// deep.
pub proof fn lemma_valid_can_step(s: Scene)
    requires
        s.valid(),
        s.max_y + 501 <= i32::MAX,
    ensures
        s.can_step(),
{
}

/// Above a floor the bounds grow sideways only as far as the grain can get:
/// less far from the spawn column than the floor lies deep.
pub proof fn lemma_run_floored_width(s: Scene, n: nat)
    requires
        s.valid(),
        s.floored(),
    ensures
        s.run_floored(n).min_x >= s.min_x || s.run_floored(n).min_x > spawn().0 - s.max_y,
        s.run_floored(n).max_x <= s.max_x || s.run_floored(n).max_x < spawn().0 + s.max_y,
    decreases n,
{
    if n > 0 {
        lemma_step_floored_valid(s);
        lemma_run_floored_width(s.step_floored().0, (n - 1) as nat);
    }
}

/// One step more at the end of a run over the void.
pub proof fn lemma_run_open_next(s: Scene, n: nat)
    ensures
        s.run_open(n + 1) == s.run_open(n).step_open().0,
    decreases n,
{
    let t = s.step_open().0;
    assert(s.run_open(n + 1) == t.run_open(n));
    if n > 0 {
        lemma_run_open_next(t, (n - 1) as nat);
    } else {
        assert(t.run_open(0) == t);
    }
}

/// One step more at the end of a run above a floor.
pub proof fn lemma_run_floored_next(s: Scene, n: nat)
    ensures
        s.run_floored(n + 1) == s.run_floored(n).step_floored().0,
    decreases n,
{
    let t = s.step_floored().0;
    assert(s.run_floored(n + 1) == t.run_floored(n));
    if n > 0 {
        lemma_run_floored_next(t, (n - 1) as nat);
    } else {
        assert(t.run_floored(0) == t);
    }
}

/// A run stops at one number of steps only.
pub proof fn lemma_run_open_stops_once(s: Scene, m: nat, n: nat)
    requires
        s.run_open_stops_at(m),
        s.run_open_stops_at(n),
    ensures
        m == n,
{
    if m < n {
        assert(s.run_open(m).goes_on_open());
    }
    if n < m {
        assert(s.run_open(n).goes_on_open());
    }
}

/// A run above a floor stops at one number of steps only.
pub proof fn lemma_run_floored_stops_once(s: Scene, m: nat, n: nat)
    requires
        s.run_floored_stops_at(m),
        s.run_floored_stops_at(n),
    ensures
        m == n,
{
    if m < n {
        assert(s.run_floored(m).goes_on_floored());
    }
    if n < m {
        assert(s.run_floored(n).goes_on_floored());
    }
}

/// Once the source is blocked it stays blocked: every later step reports
/// `Settled`, and none `Escaped`.
pub proof fn lemma_source_blocked_stays(s: Scene, n: nat)
    requires
        s.valid(),
        s.source_blocked(),
    ensures
        s.run_open(n).source_blocked(),
    decreases n,
{
    if n > 0 {
        lemma_step_open_valid(s);
        lemma_source_blocked_stays(s.step_open().0, (n - 1) as nat);
    }
}

/// Every run over the void ends: within `steps_left_open` steps it reaches a
/// scene from which the grain escapes, or one where the source is blocked.
/// The number of steps to that scene is returned.
pub proof fn lemma_run_open_ends(s: Scene) -> (n: nat)
    requires
        s.valid(),
    ensures
        n <= s.steps_left_open(),
        s.run_open(n).step_open().1 is Escaped || s.run_open(n).source_blocked(),
    decreases s.steps_left_open(),
{
    if s.step_open().1 is Escaped || s.source_blocked() {
        0
    } else {
        lemma_step_open_valid(s);
        lemma_step_open_progress(s);
        let m = lemma_run_open_ends(s.step_open().0);
        m + 1
    }
}

/// A run over the void whose source is never blocked reaches a step that
/// reports `Escaped`.
pub proof fn lemma_run_open_escapes(s: Scene)
    requires
        s.valid(),
        forall|n: nat| !(#[trigger] s.run_open(n)).source_blocked(),
    ensures
        exists|n: nat| (#[trigger] s.run_open(n)).step_open().1 is Escaped,
{
    let n = lemma_run_open_ends(s);
    assert(!s.run_open(n).source_blocked());
}

/// When a run over the void escapes, the grains at rest are those that were
/// there at the start and one more for each step that reported `Settled`.
pub proof fn lemma_run_open_count(s: Scene, n: nat)
    requires
        s.valid(),
        s.run_open(n).step_open().1 is Escaped,
    ensures
        s.run_open(n).sands.len() == s.sands.len() + s.settles_open(n),
    decreases n,
{
    if n > 0 {
        let t = s.step_open().0;
        lemma_step_open_valid(s);
        lemma_run_open_count(t, (n - 1) as nat);
        if s.step_open().1 == Outcome::Settled {
            if s.sands.contains(s.grain) {
                lemma_source_blocked_stays(s, n);
            }
        }
    }
}

/// Above a floor every run clogs: within `steps_left_floored` steps it
/// reaches a scene whose step reports `Clogged`. The number of steps to that
/// scene is returned.
pub proof fn lemma_run_floored_ends(s: Scene) -> (n: nat)
    requires
        s.valid(),
        s.floored(),
    ensures
        n <= s.steps_left_floored(),
        s.run_floored(n).step_floored().1 == Outcome::Clogged,
    decreases s.steps_left_floored(),
{
    if s.step_floored().1 == Outcome::Clogged {
        0
    } else {
        lemma_step_floored_valid(s);
        lemma_step_floored_progress(s);
        let m = lemma_run_floored_ends(s.step_floored().0);
        m + 1
    }
}

/// Once the floor is added, the grain stands above it and the run clogs: a
/// valid scene with its floor is valid and floored, so that what is said of
/// floored runs holds of it.
pub proof fn lemma_run_after_floor_clogs(s: Scene)
    requires
        s.valid(),
    ensures
        s.with_floor().valid(),
        s.with_floor().floored(),
        exists|n: nat|
            (#[trigger] s.with_floor().run_floored(n)).step_floored().1 == Outcome::Clogged,
{
    lemma_floor_len(s);
    lemma_run_floored_clogs(s.with_floor());
}

/// Above a floor a run clogs after finitely many steps, and no step of it
/// reports `Escaped`.
pub proof fn lemma_run_floored_clogs(s: Scene)
    requires
        s.valid(),
        s.floored(),
    ensures
        exists|n: nat| (#[trigger] s.run_floored(n)).step_floored().1 == Outcome::Clogged,
        forall|n: nat| !((#[trigger] s.run_floored(n)).step_floored().1 is Escaped),
{
    let n = lemma_run_floored_ends(s);
}

} // verus!
