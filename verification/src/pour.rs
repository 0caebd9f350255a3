//! Whole runs: steps taken until the run is over.

use crate::cell::{cell_of, SPAWN_X, SPAWN_Y};
use crate::parse::{parse_input, scene_in, ParseError};
use crate::path::scene_cells;
use crate::run::{
    lemma_run_floored_next, lemma_run_floored_stops_once, lemma_run_open_next,
    lemma_run_open_stops_once, lemma_step_floored_progress, lemma_step_open_progress,
    lemma_valid_can_step,
};
use crate::scene::{lemma_step_floored_valid, lemma_step_open_valid, Outcome, Scene};
use crate::world::{Escaped, Step, World};
use vstd::prelude::*;
use vstd::string::StringSliceAdditionalSpecFns;

verus! {

/// How a run over the void ended.
#[derive(Clone, Copy, Debug, PartialEq, Eq)]
pub enum RunEnd {
    /// A grain would have left the bounds.
    Escaped(Escaped),
    /// A grain came to rest at the spawn cell. Every further step would put
    /// a grain to rest there again, and none would escape.
    Blocked,
    /// A cell below the grain has no machine coordinates.
    OffGrid,
}

/// How a run above a floor ended.
#[derive(Clone, Copy, Debug, PartialEq, Eq)]
pub enum RunEndPart2 {
    /// A grain came to rest at the spawn cell.
    Clogged,
    /// The floor row, or a cell below the grain, has no machine coordinates.
    OffGrid,
}

impl Scene {
    /// A run over the void that went on up to this scene ends with `end`
    /// and leaves `last`: the step that blocks the source is taken, so that
    /// its grain is at rest; a step that escapes changes nothing.
    pub open spec fn ended_open(self, end: RunEnd, last: Scene) -> bool {
        match end {
            RunEnd::OffGrid => !self.can_step() && last == self,
            RunEnd::Escaped(e) => self.can_step() && self.step_open().1 == Outcome::Escaped(
                cell_of(e.at),
            ) && last == self,
            RunEnd::Blocked => self.can_step() && self.source_blocked() && last
                == self.step_open().0,
        }
    }

    /// A run above a floor that went on up to this scene ends with `end`
    /// and leaves `last`: the step that clogs is taken, so that its grain is
    /// at rest.
    pub open spec fn ended_floored(self, end: RunEndPart2, last: Scene) -> bool {
        match end {
            RunEndPart2::OffGrid => !self.can_step() && last == self,
            RunEndPart2::Clogged => self.can_step() && self.step_floored().1 == Outcome::Clogged
                && last == self.step_floored().0,
        }
    }

    /// The run over the void from this scene leaves `settled` grains at rest
    /// and ends with `end`.
    pub open spec fn pours_open(self, settled: nat, end: RunEnd) -> bool {
        exists|n: nat, last: Scene|
            self.run_open_stops_at(n) && #[trigger] self.run_open(n).ended_open(end, last)
                && settled == last.sands.len()
    }

    /// The run above a floor from this scene leaves `settled` grains at rest
    /// and ends with `end`.
    pub open spec fn pours_floored(self, settled: nat, end: RunEndPart2) -> bool {
        exists|n: nat, last: Scene|
            self.run_floored_stops_at(n) && #[trigger] self.run_floored(n).ended_floored(
                end,
                last,
            ) && settled == last.sands.len()
    }
}

/// A run over the void has one count and one end.
pub proof fn lemma_pours_open_once(s: Scene, a: nat, ea: RunEnd, b: nat, eb: RunEnd)
    requires
        s.pours_open(a, ea),
        s.pours_open(b, eb),
    ensures
        a == b,
        ea == eb,
{
    let (m, p) = choose|m: nat, p: Scene|
        s.run_open_stops_at(m) && #[trigger] s.run_open(m).ended_open(ea, p) && a == p.sands.len();
    let (n, q) = choose|n: nat, q: Scene|
        s.run_open_stops_at(n) && #[trigger] s.run_open(n).ended_open(eb, q) && b == q.sands.len();
    lemma_run_open_stops_once(s, m, n);
}

/// A run above a floor has one count and one end.
pub proof fn lemma_pours_floored_once(s: Scene, a: nat, ea: RunEndPart2, b: nat, eb: RunEndPart2)
    requires
        s.pours_floored(a, ea),
        s.pours_floored(b, eb),
    ensures
        a == b,
        ea == eb,
{
    let (m, p) = choose|m: nat, p: Scene|
        s.run_floored_stops_at(m) && #[trigger] s.run_floored(m).ended_floored(ea, p) && a
            == p.sands.len();
    let (n, q) = choose|n: nat, q: Scene|
        s.run_floored_stops_at(n) && #[trigger] s.run_floored(n).ended_floored(eb, q) && b
            == q.sands.len();
    lemma_run_floored_stops_once(s, m, n);
}

impl World {
    /// Takes steps over the void until the run is over, and tells how it
    /// ended.
    ///
    /// The run goes on while a step can be taken that neither escapes nor
    /// puts a grain to rest at the spawn cell, and the world is left as the
    /// last step left it. The run is not cut short at the edge of the grid
    /// where the deepest row lies more than five hundred rows above the
    /// last.
    pub fn run(&mut self) -> (end: RunEnd)
        requires
            old(self).wf(),
        ensures
            final(self).wf(),
            exists|n: nat|
                n <= old(self)@.steps_left_open() && #[trigger] old(self)@.run_open_stops_at(n)
                    && old(self)@.run_open(n).ended_open(end, final(self)@),
            old(self)@.max_y + 501 <= i32::MAX ==> !(end is OffGrid),
    {
        let ghost start = self@;
        let ghost mut n: nat = 0;
        loop
            invariant
                start == old(self)@,
                self.wf(),
                self@.max_y == start.max_y,
                self@ == start.run_open(n),
                forall|k: nat| k < n ==> (#[trigger] start.run_open(k)).goes_on_open(),
                n + self@.steps_left_open() <= start.steps_left_open(),
            decreases self@.steps_left_open(),
        {
            let ghost here = self@;
            if !self.can_step() {
                proof {
                    assert(start.run_open_stops_at(n));
                    if start.max_y + 501 <= i32::MAX {
                        lemma_valid_can_step(here);
                    }
                }
                return RunEnd::OffGrid;
            }
            let grain = self.moving_sand_coord();
            let at_spawn = grain.0 == SPAWN_X && grain.1 == SPAWN_Y;
            match self.move_step() {
                Err(e) => {
                    proof {
                        assert(start.run_open_stops_at(n));
                    }
                    return RunEnd::Escaped(e);
                },
                Ok(Step::Settled) => {
                    if at_spawn {
                        proof {
                            assert(start.run_open_stops_at(n));
                        }
                        return RunEnd::Blocked;
                    }
                },
                Ok(Step::Moved) => {},
            }
            proof {
                lemma_step_open_valid(here);
                lemma_step_open_progress(here);
                lemma_run_open_next(start, n);
                n = n + 1;
            }
        }
    }

    /// Takes steps above the floor until the run is over, and tells how it
    /// ended.
    ///
    /// The run goes on while a step can be taken that does not clog, and the
    /// world is left as the last step left it. The run is not cut short at
    /// the edge of the grid where the floor lies more than five hundred rows
    /// above the last row.
    pub fn run_part2(&mut self) -> (end: RunEndPart2)
        requires
            old(self).wf(),
            old(self)@.floored(),
        ensures
            final(self).wf(),
            exists|n: nat|
                n <= old(self)@.steps_left_floored() && #[trigger] old(
                    self,
                )@.run_floored_stops_at(n) && old(self)@.run_floored(n).ended_floored(
                    end,
                    final(self)@,
                ),
            old(self)@.max_y + 501 <= i32::MAX ==> !(end is OffGrid),
    {
        let ghost start = self@;
        let ghost mut n: nat = 0;
        loop
            invariant
                start == old(self)@,
                self.wf(),
                self@.floored(),
                self@.max_y == start.max_y,
                self@ == start.run_floored(n),
                forall|k: nat| k < n ==> (#[trigger] start.run_floored(k)).goes_on_floored(),
                n + self@.steps_left_floored() <= start.steps_left_floored(),
            decreases self@.steps_left_floored(),
        {
            let ghost here = self@;
            if !self.can_step() {
                proof {
                    assert(start.run_floored_stops_at(n));
                    if start.max_y + 501 <= i32::MAX {
                        lemma_valid_can_step(here);
                    }
                }
                return RunEndPart2::OffGrid;
            }
            match self.move_step_part2() {
                Err(_) => {
                    proof {
                        assert(start.run_floored_stops_at(n));
                    }
                    return RunEndPart2::Clogged;
                },
                Ok(_) => {},
            }
            proof {
                lemma_step_floored_valid(here);
                lemma_step_floored_progress(here);
                lemma_run_floored_next(start, n);
                n = n + 1;
            }
        }
    }
}

/// Reads a scene and lets sand fall over the void until the run is over:
/// how many grains are at rest then, and how the run ended.
pub fn part1(contents: &str) -> (r: Result<(usize, RunEnd), ParseError>)
    ensures
        match scene_in(contents.spec_bytes()) {
            Err(e) => r == Err::<(usize, RunEnd), ParseError>(e),
            Ok(paths) => r matches Ok((settled, end)) && exists|start: Scene|
                #[trigger] Scene::empty().draws(scene_cells(paths), start) && start.pours_open(
                    settled as nat,
                    end,
                ),
        },
{
    match parse_input(contents) {
        Err(e) => Err(e),
        Ok(mut world) => {
            let ghost start = world@;
            let end = world.run();
            let settled = world.settled_count();
            proof {
                let n = choose|n: nat|
                    n <= start.steps_left_open() && #[trigger] start.run_open_stops_at(n)
                        && start.run_open(n).ended_open(end, world@);
                assert(start.run_open(n).ended_open(end, world@));
                assert(start.pours_open(settled as nat, end));
            }
            Ok((settled, end))
        },
    }
}

/// Reads a scene, adds the floor and lets sand fall until the run is over:
/// how many grains are at rest then, and how the run ended. Where the floor
/// row would have no machine coordinate, no grain falls at all.
pub fn part2(contents: &str) -> (r: Result<(usize, RunEndPart2), ParseError>)
    ensures
        match scene_in(contents.spec_bytes()) {
            Err(e) => r == Err::<(usize, RunEndPart2), ParseError>(e),
            Ok(paths) => r matches Ok((settled, end)) && exists|start: Scene|
                #[trigger] Scene::empty().draws(scene_cells(paths), start) && if start.max_y + 2
                    > i32::MAX {
                    settled == 0 && end == RunEndPart2::OffGrid
                } else {
                    start.with_floor().pours_floored(settled as nat, end)
                },
        },
{
    match parse_input(contents) {
        Err(e) => Err(e),
        Ok(mut world) => {
            let ghost start = world@;
            if world.max_y() > i32::MAX - 2 {
                let settled = world.settled_count();
                return Ok((settled, RunEndPart2::OffGrid));
            }
            world.add_floor();
            let ghost floored = world@;
            let end = world.run_part2();
            let settled = world.settled_count();
            proof {
                let n = choose|n: nat|
                    n <= floored.steps_left_floored() && #[trigger] floored.run_floored_stops_at(n)
                        && floored.run_floored(n).ended_floored(end, world@);
                assert(floored.run_floored(n).ended_floored(end, world@));
                assert(floored.pours_floored(settled as nat, end));
            }
            Ok((settled, end))
        },
    }
}

} // verus!
