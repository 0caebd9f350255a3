//! The simulation engine: a scene held in hash sets, advanced one step at a
//! time.

use crate::cell::{
    cell_key, cell_of, cells_of, lemma_cells_of_empty, lemma_cells_of_insert, lemma_cells_of_len,
    lemma_keys_finite, spawn, SPAWN_X, SPAWN_Y,
};
use crate::scene::{
    lemma_floor_len, lemma_step_floored_valid, lemma_step_open_valid, Outcome, Scene,
};
use std::collections::HashSet;
use vstd::prelude::*;

verus! {

/// How a step went on.
#[derive(Clone, Copy, Debug, PartialEq, Eq)]
pub enum Step {
    /// The grain fell one row.
    Moved,
    /// The grain came to rest and the next one stands at the spawn cell.
    Settled,
}

/// The end of a run over the void: the grain would have left the bounds.
#[derive(Clone, Copy, Debug, PartialEq, Eq)]
pub struct Escaped {
    /// The first cell outside the bounds that the grain tried.
    pub at: (i32, i32),
}

/// The end of a run above a floor: a grain came to rest at the spawn cell.
#[derive(Clone, Copy, Debug, PartialEq, Eq)]
pub struct Clogged;

/// What a step over the void reports, as an outcome of the model.
pub open spec fn outcome_open(r: Result<Step, Escaped>) -> Outcome {
    match r {
        Ok(Step::Moved) => Outcome::Moved,
        Ok(Step::Settled) => Outcome::Settled,
        Err(e) => Outcome::Escaped(cell_of(e.at)),
    }
}

/// What a step above a floor reports, as an outcome of the model.
pub open spec fn outcome_floored(r: Result<Step, Clogged>) -> Outcome {
    match r {
        Ok(Step::Moved) => Outcome::Moved,
        Ok(Step::Settled) => Outcome::Settled,
        Err(_) => Outcome::Clogged,
    }
}

/// Rock, sand at rest, the one grain that is falling, and the bounds of all
/// that has been recorded.
pub struct World {
    rocks_coord: HashSet<u64>,
    moving_sand_coord: (i32, i32),
    sands_coord: HashSet<u64>,
    min_x: i32,
    max_x: i32,
    min_y: i32,
    max_y: i32,
}

impl View for World {
    type V = Scene;

    closed spec fn view(&self) -> Scene {
        Scene {
            rocks: cells_of(self.rocks_coord@),
            sands: cells_of(self.sands_coord@),
            grain: cell_of(self.moving_sand_coord),
            min_x: self.min_x as int,
            max_x: self.max_x as int,
            min_y: self.min_y as int,
            max_y: self.max_y as int,
        }
    }
}

impl World {
    /// The world stands for a scene that the simulation can reach.
    pub open spec fn wf(&self) -> bool {
        self@.valid()
    }

    /// A world with no rock and no sand, its grain at the spawn cell.
    pub fn new() -> (world: World)
        ensures
            world.wf(),
            world@ == Scene::empty(),
    {
        let world = World {
            rocks_coord: HashSet::new(),
            moving_sand_coord: (SPAWN_X, SPAWN_Y),
            sands_coord: HashSet::new(),
            min_x: i32::MAX,
            max_x: i32::MIN,
            min_y: 0,
            max_y: 0,
        };
        proof {
            lemma_cells_of_empty();
            assert(world@ =~= Scene::empty());
        }
        world
    }

    /// Least column recorded.
    pub fn min_x(&self) -> (x: i32)
        ensures
            x == self@.min_x,
    {
        self.min_x
    }

    /// Greatest column recorded.
    pub fn max_x(&self) -> (x: i32)
        ensures
            x == self@.max_x,
    {
        self.max_x
    }

    /// Least row recorded.
    pub fn min_y(&self) -> (y: i32)
        ensures
            y == self@.min_y,
    {
        self.min_y
    }

    /// Greatest row recorded.
    pub fn max_y(&self) -> (y: i32)
        ensures
            y == self@.max_y,
    {
        self.max_y
    }

    /// The cell of the grain that is falling.
    pub fn moving_sand_coord(&self) -> (coord: (i32, i32))
        ensures
            cell_of(coord) == self@.grain,
    {
        self.moving_sand_coord
    }

    /// Whether rock lies at `coord`.
    pub fn is_rock(&self, coord: (i32, i32)) -> (rock: bool)
        ensures
            rock == self@.rocks.contains(cell_of(coord)),
    {
        broadcast use vstd::std_specs::hash::group_hash_axioms;

        let key: u64 = cell_key(coord.0, coord.1);
        self.rocks_coord.contains(&key)
    }

    /// Whether a grain has come to rest at `coord`.
    pub fn is_sand(&self, coord: (i32, i32)) -> (sand: bool)
        ensures
            sand == self@.sands.contains(cell_of(coord)),
    {
        broadcast use vstd::std_specs::hash::group_hash_axioms;

        let key: u64 = cell_key(coord.0, coord.1);
        self.sands_coord.contains(&key)
    }

    /// How many cells hold rock.
    pub fn rock_count(&self) -> (count: usize)
        requires
            self.wf(),
        ensures
            count == self@.rocks.len(),
    {
        broadcast use vstd::std_specs::hash::group_hash_axioms;

        proof {
            lemma_keys_finite(self.rocks_coord@);
            lemma_cells_of_len(self.rocks_coord@);
        }
        self.rocks_coord.len()
    }

    /// How many grains have come to rest.
    pub fn settled_count(&self) -> (count: usize)
        requires
            self.wf(),
        ensures
            count == self@.sands.len(),
    {
        broadcast use vstd::std_specs::hash::group_hash_axioms;

        proof {
            lemma_keys_finite(self.sands_coord@);
            lemma_cells_of_len(self.sands_coord@);
        }
        self.sands_coord.len()
    }

    /// Whether rock or sand lies at `coord`.
    pub fn is_occupied(&self, coord: (i32, i32)) -> (taken: bool)
        ensures
            taken == self@.occupied(cell_of(coord)),
    {
        broadcast use vstd::std_specs::hash::group_hash_axioms;

        let key: u64 = cell_key(coord.0, coord.1);
        self.rocks_coord.contains(&key) || self.sands_coord.contains(&key)
    }

    /// Whether rock or sand lies at `coord`, or `coord` is on the floor row.
    pub fn is_occupied_part2(&self, coord: (i32, i32)) -> (taken: bool)
        ensures
            taken == self@.occupied_floored(cell_of(coord)),
    {
        self.is_occupied(coord) || coord.1 == self.max_y
    }

    /// Whether `coord` lies outside the bounds.
    pub fn is_out(&self, coord: (i32, i32)) -> (outside: bool)
        ensures
            outside == self@.out(cell_of(coord)),
    {
        coord.0 < self.min_x || coord.0 > self.max_x || coord.1 > self.max_y || coord.1
            < self.min_y
    }

    /// Whether the cells below the grain have machine coordinates: what
    /// [`World::move_step`] and [`World::move_step_part2`] ask for.
    pub fn can_step(&self) -> (fits: bool)
        ensures
            fits == self@.can_step(),
    {
        let coord = self.moving_sand_coord;
        i32::MIN < coord.0 && coord.0 < i32::MAX && coord.1 < i32::MAX
    }

    /// Whether the grain stands above the floor row: what
    /// [`World::move_step_part2`] asks for.
    pub fn is_floored(&self) -> (floored: bool)
        ensures
            floored == self@.floored(),
    {
        self.moving_sand_coord.1 < self.max_y
    }

    /// Records a rock at `coord` and widens the bounds to hold it.
    ///
    /// The rock may lie on no grain at rest, and under the falling grain
    /// only while that stands at the spawn cell.
    pub(crate) fn add_rock(&mut self, coord: (i32, i32))
        requires
            old(self).wf(),
            old(self)@.sands.contains(cell_of(coord)) ==> cell_of(coord) == spawn(),
            old(self)@.grain == cell_of(coord) ==> cell_of(coord) == spawn(),
        ensures
            final(self).wf(),
            final(self)@ == old(self)@.with_rock(cell_of(coord)),
    {
        broadcast use vstd::std_specs::hash::group_hash_axioms;

        let key: u64 = cell_key(coord.0, coord.1);
        self.rocks_coord.insert(key);
        if coord.0 < self.min_x {
            self.min_x = coord.0;
        }
        if coord.0 > self.max_x {
            self.max_x = coord.0;
        }
        if coord.1 < self.min_y {
            self.min_y = coord.1;
        }
        if coord.1 > self.max_y {
            self.max_y = coord.1;
        }
        proof {
            lemma_cells_of_insert(old(self).rocks_coord@, cell_of(coord));
            assert(self@ =~= old(self)@.with_rock(cell_of(coord)));
        }
    }

    /// Records a grain at rest at `coord` and widens the bounds to hold it.
    ///
    /// A step calls this with the cell of the falling grain, and then puts
    /// the grain back to the spawn cell: only then is the world well formed
    /// again.
    fn add_sand(&mut self, coord: (i32, i32))
        ensures
            final(self)@ == old(self)@.with_sand(cell_of(coord)),
    {
        broadcast use vstd::std_specs::hash::group_hash_axioms;

        let key: u64 = cell_key(coord.0, coord.1);
        self.sands_coord.insert(key);
        if coord.0 < self.min_x {
            self.min_x = coord.0;
        }
        if coord.0 > self.max_x {
            self.max_x = coord.0;
        }
        if coord.1 < self.min_y {
            self.min_y = coord.1;
        }
        if coord.1 > self.max_y {
            self.max_y = coord.1;
        }
        proof {
            lemma_cells_of_insert(old(self).sands_coord@, cell_of(coord));
            assert(self@ =~= old(self)@.with_sand(cell_of(coord)));
        }
    }

    /// Adds the floor: a rock two rows below the deepest row under every
    /// recorded column. The deepest row then is the floor row, which
    /// [`World::move_step_part2`] takes to stretch without end to both sides.
    ///
    /// The rocks gained are as many as there are recorded columns, and all of
    /// them new.
    pub fn add_floor(&mut self)
        requires
            old(self).wf(),
            old(self)@.max_y + 2 <= i32::MAX,
        ensures
            final(self).wf(),
            final(self)@ == old(self)@.with_floor(),
            final(self)@.floored(),
            final(self)@.max_y == old(self)@.max_y + 2,
            final(self)@.rocks.len() == old(self)@.rocks.len() + old(self)@.width(),
    {
        broadcast use vstd::std_specs::hash::group_hash_axioms;

        let floor_y: i32 = self.max_y + 2;
        let min_x: i32 = self.min_x;
        let max_x: i32 = self.max_x;
        let mut x: i64 = min_x as i64;
        while x <= max_x as i64
            invariant
                min_x <= x,
                min_x <= max_x ==> x <= max_x + 1,
                min_x == old(self).min_x,
                max_x == old(self).max_x,
                floor_y == old(self).max_y + 2,
                self.moving_sand_coord == old(self).moving_sand_coord,
                self.sands_coord == old(self).sands_coord,
                self.min_x == old(self).min_x,
                self.max_x == old(self).max_x,
                self.min_y == old(self).min_y,
                self.max_y == old(self).max_y,
                cells_of(self.rocks_coord@) == old(self)@.rocks.union(
                    old(self)@.floor_cells_before(x as int),
                ),
            decreases max_x + 1 - x,
        {
            let ghost before = self.rocks_coord@;
            let key: u64 = cell_key(x as i32, floor_y);
            self.rocks_coord.insert(key);
            proof {
                lemma_cells_of_insert(before, (x as int, floor_y as int));
                assert(cells_of(self.rocks_coord@) =~= old(self)@.rocks.union(
                    old(self)@.floor_cells_before(x + 1),
                ));
            }
            x = x + 1;
        }
        self.max_y = floor_y;
        proof {
            assert(old(self)@.floor_cells_before(x as int) =~= old(self)@.floor_cells());
            assert(self@ =~= old(self)@.with_floor());
            lemma_floor_len(old(self)@);
        }
    }

    /// Advances the simulation by one step where nothing lies below the
    /// scene.
    ///
    /// `Ok` tells whether the grain fell or came to rest; `Err` tells the
    /// cell at which it would have left the bounds, and then nothing has
    /// changed. The run is over at the first `Err`.
    pub fn move_step(&mut self) -> (r: Result<Step, Escaped>)
        requires
            old(self).wf(),
            old(self)@.can_step(),
        ensures
            final(self).wf(),
            final(self)@ == old(self)@.step_open().0,
            outcome_open(r) == old(self)@.step_open().1,
    {
        let (x, y) = self.moving_sand_coord;
        let attempts: [(i32, i32); 3] = [(x, y + 1), (x - 1, y + 1), (x + 1, y + 1)];
        let mut i: usize = 0;
        while i < 3
            invariant
                i <= 3,
                *self == *old(self),
                cell_of(attempts@[0]) == self@.below(),
                cell_of(attempts@[1]) == self@.below_left(),
                cell_of(attempts@[2]) == self@.below_right(),
                self.wf(),
                forall|j: int|
                    0 <= j < i ==> !self@.out(cell_of(#[trigger] attempts@[j])) && self@.occupied(
                        cell_of(attempts@[j]),
                    ),
            decreases 3 - i,
        {
            let attempt = attempts[i];
            if self.is_out(attempt) {
                return Err(Escaped { at: attempt });
            }
            if !self.is_occupied(attempt) {
                self.moving_sand_coord = attempt;
                proof {
                    lemma_step_open_valid(old(self)@);
                    assert(self@ =~= old(self)@.step_open().0);
                }
                return Ok(Step::Moved);
            }
            i = i + 1;
        }
        let key: u64 = cell_key(x, y);
        self.sands_coord.insert(key);
        self.moving_sand_coord = (SPAWN_X, SPAWN_Y);
        proof {
            broadcast use vstd::std_specs::hash::group_hash_axioms;

            assert(!old(self)@.out(cell_of(attempts@[0])) && old(self)@.occupied(
                cell_of(attempts@[0]),
            ));
            assert(!old(self)@.out(cell_of(attempts@[1])) && old(self)@.occupied(
                cell_of(attempts@[1]),
            ));
            assert(!old(self)@.out(cell_of(attempts@[2])) && old(self)@.occupied(
                cell_of(attempts@[2]),
            ));
            lemma_cells_of_insert(old(self).sands_coord@, cell_of((x, y)));
            lemma_step_open_valid(old(self)@);
            assert(self@ =~= old(self)@.step_open().0);
        }
        Ok(Step::Settled)
    }

    /// Advances the simulation by one step above the floor.
    ///
    /// `Ok` tells whether the grain fell or came to rest; `Err` tells that it
    /// came to rest at the spawn cell, where it is recorded like any other.
    /// The run is over at the first `Err`.
    pub fn move_step_part2(&mut self) -> (r: Result<Step, Clogged>)
        requires
            old(self).wf(),
            old(self)@.floored(),
            old(self)@.can_step(),
        ensures
            final(self).wf(),
            final(self)@.floored(),
            final(self)@ == old(self)@.step_floored().0,
            outcome_floored(r) == old(self)@.step_floored().1,
    {
        let (x, y) = self.moving_sand_coord;
        let attempts: [(i32, i32); 3] = [(x, y + 1), (x - 1, y + 1), (x + 1, y + 1)];
        let mut i: usize = 0;
        while i < 3
            invariant
                i <= 3,
                *self == *old(self),
                cell_of(attempts@[0]) == self@.below(),
                cell_of(attempts@[1]) == self@.below_left(),
                cell_of(attempts@[2]) == self@.below_right(),
                self@.floored(),
                self.wf(),
                forall|j: int|
                    0 <= j < i ==> self@.occupied_floored(cell_of(#[trigger] attempts@[j])),
            decreases 3 - i,
        {
            let attempt = attempts[i];
            if !self.is_occupied_part2(attempt) {
                self.moving_sand_coord = attempt;
                if attempt.0 < self.min_x {
                    self.min_x = attempt.0;
                }
                if attempt.0 > self.max_x {
                    self.max_x = attempt.0;
                }
                if attempt.1 < self.min_y {
                    self.min_y = attempt.1;
                }
                if attempt.1 > self.max_y {
                    self.max_y = attempt.1;
                }
                proof {
                    lemma_step_floored_valid(old(self)@);
                    assert(self@ =~= old(self)@.step_floored().0);
                }
                return Ok(Step::Moved);
            }
            i = i + 1;
        }
        proof {
            assert(old(self)@.occupied_floored(cell_of(attempts@[0])));
            assert(old(self)@.occupied_floored(cell_of(attempts@[1])));
            assert(old(self)@.occupied_floored(cell_of(attempts@[2])));
            lemma_step_floored_valid(old(self)@);
        }
        self.add_sand((x, y));
        if x == SPAWN_X && y == SPAWN_Y {
            return Err(Clogged);
        }
        self.moving_sand_coord = (SPAWN_X, SPAWN_Y);
        proof {
            assert(self@ =~= old(self)@.step_floored().0);
        }
        Ok(Step::Settled)
    }
}

} // verus!
