//! Cells of the grid and the integer keys under which they are stored.

use vstd::prelude::*;
use vstd::set_lib::lemma_map_size;

verus! {

/// Column of the cell where every grain enters the scene.
pub const SPAWN_X: i32 = 500;

/// Row of the cell where every grain enters the scene.
pub const SPAWN_Y: i32 = 0;

/// The cell where every grain enters the scene.
pub open spec fn spawn() -> (int, int) {
    (500, 0)
}

/// Whether both coordinates of `c` fit a 32-bit signed integer.
pub open spec fn in_grid(c: (int, int)) -> bool {
    &&& i32::MIN <= c.0 <= i32::MAX
    &&& i32::MIN <= c.1 <= i32::MAX
}

/// How many integers lie from `lo` to `hi`, both included.
pub open spec fn span(lo: int, hi: int) -> nat {
    if lo <= hi {
        (hi - lo + 1) as nat
    } else {
        0
    }
}

/// The mathematical cell named by a pair of machine coordinates.
pub open spec fn cell_of(c: (i32, i32)) -> (int, int) {
    (c.0 as int, c.1 as int)
}

/// The key of a cell: its column and row, each shifted to be non-negative,
/// written side by side in 32 bits each.
pub open spec fn key_of(c: (int, int)) -> int {
    (c.0 + 0x8000_0000) * 0x1_0000_0000 + (c.1 + 0x8000_0000)
}

/// The cell that a key stands for.
pub open spec fn cell_at(k: u64) -> (int, int) {
    (k as int / 0x1_0000_0000 - 0x8000_0000, k as int % 0x1_0000_0000 - 0x8000_0000)
}

/// Keys and cells of the grid correspond one to one.
pub proof fn lemma_key_round_trip(c: (int, int))
    requires
        in_grid(c),
    ensures
        0 <= key_of(c) <= u64::MAX,
        cell_at(key_of(c) as u64) == c,
{
}

/// Every key stands for a cell of the grid, and is that cell's key.
pub proof fn lemma_cell_round_trip(k: u64)
    ensures
        in_grid(cell_at(k)),
        key_of(cell_at(k)) == k,
{
}

/// The cells whose keys are in `keys`.
pub open spec fn cells_of(keys: Set<u64>) -> Set<(int, int)> {
    Set::new(|c: (int, int)| in_grid(c) && keys.contains(key_of(c) as u64))
}

/// No keys stand for no cells.
pub proof fn lemma_cells_of_empty()
    ensures
        cells_of(Set::empty()) == Set::<(int, int)>::empty(),
{
    assert(cells_of(Set::empty()) =~= Set::<(int, int)>::empty());
}

/// One more key stands for one more cell.
pub proof fn lemma_cells_of_insert(keys: Set<u64>, c: (int, int))
    requires
        in_grid(c),
    ensures
        cells_of(keys.insert(key_of(c) as u64)) == cells_of(keys).insert(c),
{
    let more = keys.insert(key_of(c) as u64);
    assert forall|d: (int, int)| cells_of(more).contains(d) <==> cells_of(keys).insert(
        c,
    ).contains(d) by {
        if in_grid(d) {
            lemma_key_round_trip(d);
            lemma_key_round_trip(c);
        }
    }
    assert(cells_of(more) =~= cells_of(keys).insert(c));
}

/// Finitely many keys stand for as many cells.
pub proof fn lemma_cells_of_len(keys: Set<u64>)
    requires
        keys.finite(),
    ensures
        cells_of(keys).finite(),
        cells_of(keys).len() == keys.len(),
{
    let f = |k: u64| cell_at(k);
    assert forall|k1: u64, k2: u64| #[trigger] f(k1) == #[trigger] f(k2) implies k1 == k2 by {
        lemma_cell_round_trip(k1);
        lemma_cell_round_trip(k2);
    }
    assert forall|c: (int, int)| keys.map(f).contains(c) <==> cells_of(keys).contains(c) by {
        if keys.map(f).contains(c) {
            let k = choose|k: u64| keys.contains(k) && c == f(k);
            lemma_cell_round_trip(k);
        }
        if cells_of(keys).contains(c) {
            lemma_key_round_trip(c);
            assert(keys.contains(key_of(c) as u64) && c == f(key_of(c) as u64));
        }
    }
    assert(keys.map(f) =~= cells_of(keys));
    lemma_map_size(keys, cells_of(keys), f);
}

/// Finitely many cells have finitely many keys.
pub proof fn lemma_keys_finite(keys: Set<u64>)
    requires
        cells_of(keys).finite(),
    ensures
        keys.finite(),
{
    let g = |c: (int, int)| key_of(c) as u64;
    assert forall|k: u64| cells_of(keys).map(g).contains(k) <==> keys.contains(k) by {
        if cells_of(keys).map(g).contains(k) {
            let c = choose|c: (int, int)| cells_of(keys).contains(c) && k == g(c);
        }
        if keys.contains(k) {
            lemma_cell_round_trip(k);
            assert(cells_of(keys).contains(cell_at(k)) && k == g(cell_at(k)));
        }
    }
    assert(cells_of(keys).map(g) =~= keys);
    cells_of(keys).lemma_map_finite(g);
}

/// Computes the key of a cell.
pub fn cell_key(x: i32, y: i32) -> (k: u64)
    ensures
        k == key_of((x as int, y as int)),
{
    let col: u64 = (x as i64 + 0x8000_0000) as u64;
    let row: u64 = (y as i64 + 0x8000_0000) as u64;
    col * 0x1_0000_0000 + row
}

} // verus!
