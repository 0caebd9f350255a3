//! What a scene looks like, cell by cell.

use crate::cell::{cell_of, span, spawn, SPAWN_X, SPAWN_Y};
use crate::scene::Scene;
use crate::world::World;
use vstd::prelude::*;

verus! {

/// What is drawn in one cell.
#[derive(Clone, Copy, Debug, PartialEq, Eq)]
pub enum Glyph {
    /// The spawn cell with a grain at rest in it.
    SpawnSettled,
    /// The spawn cell with no grain at rest in it.
    SpawnEmpty,
    /// The grain that is falling.
    Grain,
    /// A grain at rest.
    Sand,
    /// Rock.
    Rock,
    /// A cell of the deepest row that holds nothing.
    Floor,
    /// A cell that holds nothing.
    Air,
}

impl Glyph {
    /// The character that stands for the glyph: `X`, `+`, `o`, `O`, `#`,
    /// `~` and `.` in the order of the variants.
    pub open spec fn spec_byte(self) -> u8 {
        match self {
            Glyph::SpawnSettled => 88,
            Glyph::SpawnEmpty => 43,
            Glyph::Grain => 111,
            Glyph::Sand => 79,
            Glyph::Rock => 35,
            Glyph::Floor => 126,
            Glyph::Air => 46,
        }
    }

    /// The character that stands for the glyph.
    #[verifier::when_used_as_spec(spec_byte)]
    pub fn byte(self) -> (b: u8)
        ensures
            b == self.spec_byte(),
    {
        match self {
            Glyph::SpawnSettled => 88,
            Glyph::SpawnEmpty => 43,
            Glyph::Grain => 111,
            Glyph::Sand => 79,
            Glyph::Rock => 35,
            Glyph::Floor => 126,
            Glyph::Air => 46,
        }
    }
}

impl Scene {
    /// What is drawn at `c`. The spawn cell shows whether a grain rests in
    /// it, whatever else it holds; elsewhere the falling grain hides sand,
    /// sand hides rock, and rock hides the deepest row.
    pub open spec fn glyph_at(self, c: (int, int)) -> Glyph {
        if c == spawn() {
            if self.sands.contains(c) {
                Glyph::SpawnSettled
            } else {
                Glyph::SpawnEmpty
            }
        } else if c == self.grain {
            Glyph::Grain
        } else if self.sands.contains(c) {
            Glyph::Sand
        } else if self.rocks.contains(c) {
            Glyph::Rock
        } else if c.1 == self.max_y {
            Glyph::Floor
        } else {
            Glyph::Air
        }
    }

    /// How many cells of a row are drawn: the columns of the bounds and two
    /// more on each side.
    pub open spec fn row_len(self) -> nat {
        span(self.min_x - 2, self.max_x + 2)
    }

    /// Row `y` as it is drawn: one character for each column from two
    /// before the least to two behind the greatest.
    pub open spec fn row(self, y: int) -> Seq<u8> {
        Seq::new(self.row_len(), |k: int| self.glyph_at((self.min_x - 2 + k, y)).spec_byte())
    }

    /// How many rows are drawn: those of the bounds.
    pub open spec fn height(self) -> nat {
        span(self.min_y, self.max_y)
    }

    /// The scene as it is drawn: the rows of the bounds from the least to
    /// the greatest.
    pub open spec fn picture(self) -> Seq<Seq<u8>> {
        Seq::new(self.height(), |k: int| self.row(self.min_y + k))
    }
}

/// The rows that a list of vectors holds.
pub open spec fn rows_of(rows: Seq<Vec<u8>>) -> Seq<Seq<u8>> {
    Seq::new(rows.len(), |k: int| rows[k]@)
}

impl World {
    /// What is drawn at `coord`.
    pub fn glyph_at(&self, coord: (i32, i32)) -> (glyph: Glyph)
        ensures
            glyph == self@.glyph_at(cell_of(coord)),
    {
        let grain = self.moving_sand_coord();
        if coord.0 == SPAWN_X && coord.1 == SPAWN_Y {
            if self.is_sand(coord) {
                Glyph::SpawnSettled
            } else {
                Glyph::SpawnEmpty
            }
        } else if coord.0 == grain.0 && coord.1 == grain.1 {
            Glyph::Grain
        } else if self.is_sand(coord) {
            Glyph::Sand
        } else if self.is_rock(coord) {
            Glyph::Rock
        } else if coord.1 == self.max_y() {
            Glyph::Floor
        } else {
            Glyph::Air
        }
    }

    /// Row `y` as it is drawn, for bounds whose margin of two columns on
    /// each side has machine coordinates.
    pub fn render_row(&self, y: i32) -> (row: Vec<u8>)
        requires
            i32::MIN <= self@.min_x - 2,
            self@.max_x + 2 <= i32::MAX,
        ensures
            row@ == self@.row(y as int),
    {
        let first: i32 = self.min_x() - 2;
        let last: i32 = self.max_x() + 2;
        let mut row: Vec<u8> = Vec::new();
        let mut x: i64 = first as i64;
        while x <= last as i64
            invariant
                first == self@.min_x - 2,
                last == self@.max_x + 2,
                first <= x,
                x <= last + 1 || x == first,
                row@.len() == x - first,
                forall|k: int|
                    0 <= k < row@.len() ==> row@[k] == self@.glyph_at(
                        (first + k, y as int),
                    ).spec_byte(),
            decreases last + 1 - x,
        {
            let glyph = self.glyph_at((x as i32, y));
            row.push(glyph.byte());
            x = x + 1;
        }
        proof {
            assert forall|k: int| 0 <= k < row@.len() implies row@[k] == self@.row(y as int)[k] by {
                assert(first + k == self@.min_x - 2 + k);
            }
            assert(row@ =~= self@.row(y as int));
        }
        row
    }

    /// The world as it is drawn, row by row, for bounds whose margin of two
    /// columns on each side has machine coordinates.
    pub fn render(&self) -> (rows: Vec<Vec<u8>>)
        requires
            i32::MIN <= self@.min_x - 2,
            self@.max_x + 2 <= i32::MAX,
        ensures
            rows_of(rows@) == self@.picture(),
    {
        let first: i32 = self.min_y();
        let last: i32 = self.max_y();
        let mut rows: Vec<Vec<u8>> = Vec::new();
        let mut y: i64 = first as i64;
        while y <= last as i64
            invariant
                first == self@.min_y,
                last == self@.max_y,
                i32::MIN <= self@.min_x - 2,
                self@.max_x + 2 <= i32::MAX,
                first <= y,
                y <= last + 1 || y == first,
                rows@.len() == y - first,
                forall|k: int|
                    0 <= k < rows@.len() ==> (#[trigger] rows@[k])@ == self@.row(first + k),
            decreases last + 1 - y,
        {
            let row = self.render_row(y as i32);
            rows.push(row);
            y = y + 1;
        }
        proof {
            assert(rows_of(rows@) =~= self@.picture());
        }
        rows
    }
}

} // verus!
