//! The text of a scene.
//!
//! A scene is written one polyline per line. The corners of a polyline are
//! joined by an arrow with a space on each side, and a corner is a column and
//! a row with a comma between them: `498,4 -> 498,6 -> 496,6`.

use crate::cell::cell_of;
use crate::path::{
    corner_cells, lemma_draws_nothing, lemma_draws_one_more, lemma_draws_then,
    lemma_scene_cells_push, path_cells, rect, rect_before, scene_cells, segment,
    segments_before,
};
use crate::scene::Scene;
use crate::text::{lemma_split_not_empty, split, split_text, texts};
use crate::world::World;
use vstd::prelude::*;
use vstd::slice::slice_subrange;
use vstd::string::StringSliceAdditionalSpecFns;

verus! {

/// Why a text is not a scene.
#[derive(Clone, Copy, Debug, PartialEq, Eq)]
pub enum ParseError {
    /// A corner has no comma.
    MissingComma,
    /// A coordinate has no text at all.
    MissingCoordinate,
    /// A coordinate is not an optional sign and then decimal digits only.
    NotAnInteger,
    /// A coordinate is an integer that does not fit 32 bits.
    OutOfRange,
}

/// The line feed, which ends a line.
pub const LINE_FEED: u8 = 10;

/// The carriage return, which may stand before a line feed.
pub const CARRIAGE_RETURN: u8 = 13;

/// The comma between the coordinates of a corner.
pub const COMMA: u8 = 44;

/// The plus sign.
pub const PLUS: u8 = 43;

/// The minus sign.
pub const MINUS: u8 = 45;

/// The digit zero; the other digits follow it.
pub const ZERO: u8 = 48;

/// The digit nine.
pub const NINE: u8 = 57;

/// The arrow between two corners: space, minus, greater-than, space.
pub open spec fn arrow() -> Seq<u8> {
    seq![32u8, 45u8, 62u8, 32u8]
}

/// The pattern of one byte.
pub open spec fn single(b: u8) -> Seq<u8> {
    seq![b]
}

/// Every byte of `s` is a decimal digit.
pub open spec fn all_digits(s: Seq<u8>) -> bool {
    forall|i: int| 0 <= i < s.len() ==> ZERO <= #[trigger] s[i] <= NINE
}

/// The number that a string of decimal digits writes.
pub open spec fn decimal(s: Seq<u8>) -> nat
    decreases s.len(),
{
    if s.len() == 0 {
        0
    } else {
        (decimal(s.drop_last()) * 10 + (s.last() - ZERO)) as nat
    }
}

/// The coordinate that a text writes: an optional sign, then one decimal
/// digit or more and nothing else, for a number that fits 32 bits.
pub open spec fn coordinate_in(s: Seq<u8>) -> Result<int, ParseError> {
    if s.len() == 0 {
        Err(ParseError::MissingCoordinate)
    } else {
        let digits = if s[0] == MINUS || s[0] == PLUS {
            s.subrange(1, s.len() as int)
        } else {
            s
        };
        let value = if s[0] == MINUS {
            -(decimal(digits) as int)
        } else {
            decimal(digits) as int
        };
        if digits.len() == 0 || !all_digits(digits) {
            Err(ParseError::NotAnInteger)
        } else if i32::MIN <= value <= i32::MAX {
            Ok(value)
        } else {
            Err(ParseError::OutOfRange)
        }
    }
}

/// The corner that a text writes. The text is cut at its commas: the first
/// field is the column, the second the row, and further fields are not
/// looked at. Where both coordinates are wrong, the column's error is
/// reported.
pub open spec fn corner_in(s: Seq<u8>) -> Result<(int, int), ParseError> {
    let fields = split(s, single(COMMA));
    if fields.len() < 2 {
        Err(ParseError::MissingComma)
    } else {
        match coordinate_in(fields[0]) {
            Err(e) => Err(e),
            Ok(x) => match coordinate_in(fields[1]) {
                Err(e) => Err(e),
                Ok(y) => Ok((x, y)),
            },
        }
    }
}

/// The corners that a list of texts writes, or the error of the first text
/// that writes none.
pub open spec fn corners_in(pieces: Seq<Seq<u8>>) -> Result<Seq<(int, int)>, ParseError>
    decreases pieces.len(),
{
    if pieces.len() == 0 {
        Ok(Seq::empty())
    } else {
        match corners_in(pieces.drop_last()) {
            Err(e) => Err(e),
            Ok(corners) => match corner_in(pieces.last()) {
                Err(e) => Err(e),
                Ok(c) => Ok(corners.push(c)),
            },
        }
    }
}

/// The polyline that a line writes: the line is cut at its arrows, and each
/// piece is a corner. An empty line has one piece, which is no corner.
pub open spec fn path_in(line: Seq<u8>) -> Result<Seq<(int, int)>, ParseError> {
    corners_in(split(line, arrow()))
}

/// The polylines that a list of lines writes, or the error of the first line
/// that writes none.
pub open spec fn paths_in(lines: Seq<Seq<u8>>) -> Result<Seq<Seq<(int, int)>>, ParseError>
    decreases lines.len(),
{
    if lines.len() == 0 {
        Ok(Seq::empty())
    } else {
        match paths_in(lines.drop_last()) {
            Err(e) => Err(e),
            Ok(paths) => match path_in(lines.last()) {
                Err(e) => Err(e),
                Ok(p) => Ok(paths.push(p)),
            },
        }
    }
}

/// `s` without the carriage return at its end, if it has one.
pub open spec fn without_return(s: Seq<u8>) -> Seq<u8> {
    if s.len() > 0 && s.last() == CARRIAGE_RETURN {
        s.drop_last()
    } else {
        s
    }
}

/// The lines of a text. A line ends at a line feed, or at a carriage return
/// and a line feed; the last line need not be ended, and what follows the
/// last line feed is a line only if it is not empty.
pub open spec fn lines(s: Seq<u8>) -> Seq<Seq<u8>> {
    let parts = split(s, single(LINE_FEED));
    let ended = parts.len() - 1;
    Seq::new(
        if parts.last().len() == 0 {
            ended as nat
        } else {
            parts.len()
        },
        |i: int|
            if i < ended {
                without_return(parts[i])
            } else {
                parts[i]
            },
    )
}

/// The polylines that a text writes.
pub open spec fn scene_in(s: Seq<u8>) -> Result<Seq<Seq<(int, int)>>, ParseError> {
    paths_in(lines(s))
}

/// A coordinate as the model has it.
pub open spec fn coordinate_of(r: Result<i32, ParseError>) -> Result<int, ParseError> {
    match r {
        Ok(v) => Ok(v as int),
        Err(e) => Err(e),
    }
}

/// A corner as the model has it.
pub open spec fn corner_of(r: Result<(i32, i32), ParseError>) -> Result<(int, int), ParseError> {
    match r {
        Ok(c) => Ok(cell_of(c)),
        Err(e) => Err(e),
    }
}

/// A polyline as the model has it.
pub open spec fn path_of(r: Result<Vec<(i32, i32)>, ParseError>) -> Result<
    Seq<(int, int)>,
    ParseError,
> {
    match r {
        Ok(corners) => Ok(corner_cells(corners@)),
        Err(e) => Err(e),
    }
}

/// An error among the first texts is the error of the whole list.
pub proof fn lemma_corners_in_error(pieces: Seq<Seq<u8>>, n: int)
    requires
        0 <= n <= pieces.len(),
        corners_in(pieces.take(n)) is Err,
    ensures
        corners_in(pieces) == corners_in(pieces.take(n)),
    decreases pieces.len() - n,
{
    if n < pieces.len() {
        assert(pieces.take(n + 1).drop_last() =~= pieces.take(n));
        lemma_corners_in_error(pieces, n + 1);
    } else {
        assert(pieces.take(n) =~= pieces);
    }
}

/// An error among the first lines is the error of the whole list.
pub proof fn lemma_paths_in_error(lines: Seq<Seq<u8>>, n: int)
    requires
        0 <= n <= lines.len(),
        paths_in(lines.take(n)) is Err,
    ensures
        paths_in(lines) == paths_in(lines.take(n)),
    decreases lines.len() - n,
{
    if n < lines.len() {
        assert(lines.take(n + 1).drop_last() =~= lines.take(n));
        lemma_paths_in_error(lines, n + 1);
    } else {
        assert(lines.take(n) =~= lines);
    }
}

/// Reads a coordinate.
pub fn parse_coordinate(s: &[u8]) -> (r: Result<i32, ParseError>)
    ensures
        coordinate_of(r) == coordinate_in(s@),
{
    let n: usize = s.len();
    if n == 0 {
        return Err(ParseError::MissingCoordinate);
    }
    let negative = s[0] == MINUS;
    let start: usize = if s[0] == MINUS || s[0] == PLUS {
        1
    } else {
        0
    };
    let ghost digits = s@.subrange(start as int, n as int);
    proof {
        if start == 0 {
            assert(digits =~= s@);
        }
    }
    if start == n {
        return Err(ParseError::NotAnInteger);
    }
    let cap: i64 = 0x8000_0001;
    let mut value: i64 = 0;
    let mut i: usize = start;
    while i < n
        invariant
            n == s@.len(),
            start <= i <= n,
            cap == 0x8000_0001,
            n > 0,
            digits == if s@[0] == MINUS || s@[0] == PLUS {
                s@.subrange(1, n as int)
            } else {
                s@
            },
            digits.len() == n - start,
            forall|k: int| 0 <= k < n - start ==> digits[k] == s@[start + k],
            all_digits(digits.take(i - start)),
            0 <= value <= cap,
            value == if decimal(digits.take(i - start)) < cap {
                decimal(digits.take(i - start)) as int
            } else {
                cap as int
            },
        decreases n - i,
    {
        let b: u8 = s[i];
        if b < ZERO || b > NINE {
            proof {
                assert(digits[i - start] == b);
                assert(!all_digits(digits));
            }
            return Err(ParseError::NotAnInteger);
        }
        proof {
            let longer = digits.take(i - start + 1);
            assert(longer.drop_last() =~= digits.take(i - start));
            assert(longer.last() == b);
            assert forall|k: int| 0 <= k < longer.len() implies ZERO <= #[trigger] longer[k]
                <= NINE by {
                if k < i - start {
                    assert(digits.take(i - start)[k] == longer[k]);
                }
            }
        }
        value = value * 10 + (b - ZERO) as i64;
        if value > cap {
            value = cap;
        }
        i = i + 1;
    }
    proof {
        assert(digits.take(n - start) =~= digits);
    }
    let signed: i64 = if negative {
        -value
    } else {
        value
    };
    if signed < i32::MIN as i64 || signed > i32::MAX as i64 {
        Err(ParseError::OutOfRange)
    } else {
        Ok(signed as i32)
    }
}

/// Reads a corner.
pub fn parse_corner(s: &[u8]) -> (r: Result<(i32, i32), ParseError>)
    ensures
        corner_of(r) == corner_in(s@),
{
    let comma: [u8; 1] = [COMMA];
    let fields: Vec<&[u8]> = split_text(s, comma.as_slice());
    proof {
        assert(comma@ =~= single(COMMA));
        assert(texts(fields@).len() == fields@.len());
    }
    if fields.len() < 2 {
        return Err(ParseError::MissingComma);
    }
    proof {
        assert(texts(fields@)[0] == fields@[0]@);
        assert(texts(fields@)[1] == fields@[1]@);
    }
    let x: i32 = match parse_coordinate(fields[0]) {
        Ok(x) => x,
        Err(e) => {
            return Err(e);
        },
    };
    let y: i32 = match parse_coordinate(fields[1]) {
        Ok(y) => y,
        Err(e) => {
            return Err(e);
        },
    };
    Ok((x, y))
}

/// Reads the corners of a polyline.
pub fn parse_path(line: &[u8]) -> (r: Result<Vec<(i32, i32)>, ParseError>)
    ensures
        path_of(r) == path_in(line@),
{
    let arrow_text: [u8; 4] = [32, 45, 62, 32];
    let pieces: Vec<&[u8]> = split_text(line, arrow_text.as_slice());
    let ghost all = split(line@, arrow());
    proof {
        assert(arrow_text@ =~= arrow());
        assert(texts(pieces@).len() == pieces@.len());
        assert(all.take(0) =~= Seq::<Seq<u8>>::empty());
    }
    let mut corners: Vec<(i32, i32)> = Vec::new();
    proof {
        assert(corner_cells(corners@) =~= Seq::<(int, int)>::empty());
    }
    let mut i: usize = 0;
    while i < pieces.len()
        invariant
            i <= pieces@.len(),
            all == split(line@, arrow()),
            texts(pieces@) == all,
            corners_in(all.take(i as int)) == Ok::<Seq<(int, int)>, ParseError>(
                corner_cells(corners@),
            ),
        decreases pieces@.len() - i,
    {
        proof {
            assert(texts(pieces@)[i as int] == pieces@[i as int]@);
            assert(all.take(i + 1).drop_last() =~= all.take(i as int));
            assert(all.take(i + 1).last() == all[i as int]);
        }
        let ghost before = corner_cells(corners@);
        match parse_corner(pieces[i]) {
            Ok(c) => {
                corners.push(c);
                proof {
                    assert(corner_cells(corners@) =~= before.push(cell_of(c)));
                }
            },
            Err(e) => {
                proof {
                    lemma_corners_in_error(all, i + 1);
                }
                return Err(e);
            },
        }
        i = i + 1;
    }
    proof {
        assert(all.take(i as int) =~= all);
    }
    Ok(corners)
}

/// Records rock at every cell of the rectangle that two corners span.
#[verifier::loop_isolation(false)]
pub fn draw_segment(world: &mut World, a: (i32, i32), b: (i32, i32))
    requires
        old(world).wf(),
        old(world)@.pristine(),
    ensures
        final(world).wf(),
        old(world)@.draws(rect(cell_of(a), cell_of(b)), final(world)@),
{
    let from_x: i32 = if a.0 < b.0 {
        a.0
    } else {
        b.0
    };
    let to_x: i32 = if a.0 < b.0 {
        b.0
    } else {
        a.0
    };
    let from_y: i32 = if a.1 < b.1 {
        a.1
    } else {
        b.1
    };
    let to_y: i32 = if a.1 < b.1 {
        b.1
    } else {
        a.1
    };
    let ghost ca = cell_of(a);
    let ghost cb = cell_of(b);
    proof {
        lemma_draws_nothing(old(world)@);
        assert(rect_before(ca, cb, from_x as int, from_y as int) =~= Set::<(int, int)>::empty());
    }
    let mut x: i64 = from_x as i64;
    while x <= to_x as i64
        invariant
            from_x <= x <= to_x + 1,
            world.wf(),
            old(world)@.draws(rect_before(ca, cb, x as int, from_y as int), world@),
        decreases to_x + 1 - x,
    {
        let mut y: i64 = from_y as i64;
        while y <= to_y as i64
            invariant
                from_y <= y <= to_y + 1,
                world.wf(),
                old(world)@.draws(rect_before(ca, cb, x as int, y as int), world@),
            decreases to_y + 1 - y,
        {
            let ghost mid = world@;
            let ghost drawn = rect_before(ca, cb, x as int, y as int);
            world.add_rock((x as i32, y as i32));
            proof {
                lemma_draws_one_more(old(world)@, drawn, mid, (x as int, y as int));
                assert(drawn.insert((x as int, y as int)) =~= rect_before(ca, cb, x as int, y + 1));
            }
            y = y + 1;
        }
        proof {
            assert(rect_before(ca, cb, x as int, to_y + 1) =~= rect_before(
                ca,
                cb,
                x + 1,
                from_y as int,
            ));
        }
        x = x + 1;
    }
    proof {
        assert(rect_before(ca, cb, to_x + 1, from_y as int) =~= rect(ca, cb));
    }
}

/// Records rock along a polyline: between each corner and the next.
pub fn draw_path(world: &mut World, corners: &Vec<(i32, i32)>)
    requires
        old(world).wf(),
        old(world)@.pristine(),
    ensures
        final(world).wf(),
        old(world)@.draws(path_cells(corner_cells(corners@)), final(world)@),
{
    let ghost cs = corner_cells(corners@);
    proof {
        lemma_draws_nothing(old(world)@);
        assert(segments_before(cs, 0) =~= Set::<(int, int)>::empty());
    }
    let mut i: usize = 1;
    while i < corners.len()
        invariant
            1 <= i,
            cs == corner_cells(corners@),
            old(world)@.pristine(),
            world.wf(),
            old(world)@.draws(segments_before(cs, i - 1), world@),
        decreases corners@.len() - i,
    {
        let ghost mid = world@;
        draw_segment(world, corners[i - 1], corners[i]);
        proof {
            assert(segment(cs, i - 1) == rect(
                cell_of(corners@[i - 1]),
                cell_of(corners@[i as int]),
            ));
            lemma_draws_then(
                old(world)@,
                segments_before(cs, i - 1),
                mid,
                segment(cs, i - 1),
                world@,
            );
            assert(segments_before(cs, i - 1).union(segment(cs, i - 1)) =~= segments_before(
                cs,
                i as int,
            ));
        }
        i = i + 1;
    }
    proof {
        assert(segments_before(cs, i - 1) =~= path_cells(cs));
    }
}

/// Reads one line and records the rock of its polyline.
fn read_line(line: &[u8], world: &mut World) -> (r: Result<(), ParseError>)
    requires
        old(world).wf(),
        old(world)@.pristine(),
    ensures
        final(world).wf(),
        match path_in(line@) {
            Ok(corners) => r is Ok && old(world)@.draws(path_cells(corners), final(world)@),
            Err(e) => r == Err::<(), ParseError>(e) && *final(world) == *old(world),
        },
{
    match parse_path(line) {
        Ok(corners) => {
            draw_path(world, &corners);
            Ok(())
        },
        Err(e) => Err(e),
    }
}

/// Reads one line of a scene and records the rock of its polyline in a world
/// where no grain has fallen yet. A line that is no polyline leaves the
/// world as it was.
pub fn parse_line(line: &str, world: &mut World) -> (r: Result<(), ParseError>)
    requires
        old(world).wf(),
        old(world)@.pristine(),
    ensures
        final(world).wf(),
        match path_in(line.spec_bytes()) {
            Ok(corners) => r is Ok && old(world)@.draws(path_cells(corners), final(world)@),
            Err(e) => r == Err::<(), ParseError>(e) && *final(world) == *old(world),
        },
{
    read_line(line.as_bytes(), world)
}

/// Cuts a text into its lines.
pub fn split_lines<'a>(text: &'a [u8]) -> (found: Vec<&'a [u8]>)
    ensures
        texts(found@) == lines(text@),
{
    let feed: [u8; 1] = [LINE_FEED];
    let parts: Vec<&'a [u8]> = split_text(text, feed.as_slice());
    proof {
        assert(feed@ =~= single(LINE_FEED));
        assert(texts(parts@).len() == parts@.len());
        lemma_split_not_empty(text@, single(LINE_FEED));
    }
    let ended: usize = parts.len() - 1;
    let count: usize = if parts[ended].len() == 0 {
        ended
    } else {
        ended + 1
    };
    proof {
        assert(texts(parts@)[ended as int] == parts@[ended as int]@);
    }
    let mut found: Vec<&'a [u8]> = Vec::new();
    let mut i: usize = 0;
    while i < count
        invariant
            i <= count,
            count == lines(text@).len(),
            ended == parts@.len() - 1,
            count <= parts@.len(),
            texts(parts@) == split(text@, single(LINE_FEED)),
            found@.len() == i,
            forall|k: int| 0 <= k < i ==> (#[trigger] found@[k])@ == lines(text@)[k],
        decreases count - i,
    {
        let part: &'a [u8] = parts[i];
        let m: usize = part.len();
        proof {
            assert(texts(parts@)[i as int] == parts@[i as int]@);
            if m > 0 {
                assert(part@.drop_last() =~= part@.subrange(0, m - 1));
            }
        }
        if i < ended && m > 0 && part[m - 1] == CARRIAGE_RETURN {
            found.push(slice_subrange(part, 0, m - 1));
        } else {
            found.push(part);
        }
        i = i + 1;
    }
    proof {
        assert(texts(found@) =~= lines(text@));
    }
    found
}

/// Reads a scene: the world that holds the rock of every polyline of the
/// text, and nothing else.
///
/// The rock is that of every rectangle between consecutive corners of a
/// line; the bounds are the least that hold it together with the spawn row.
/// A text with a line that is no polyline gives the error of its first such
/// line.
pub fn parse_input(input: &str) -> (r: Result<World, ParseError>)
    ensures
        match scene_in(input.spec_bytes()) {
            Ok(paths) => r matches Ok(world) && world.wf() && world@.rocks == scene_cells(paths)
                && Scene::empty().draws(scene_cells(paths), world@),
            Err(e) => r matches Err(f) && f == e,
        },
{
    let found: Vec<&[u8]> = split_lines(input.as_bytes());
    let ghost all = lines(input.spec_bytes());
    let mut world = World::new();
    let ghost mut paths: Seq<Seq<(int, int)>> = Seq::empty();
    proof {
        assert(texts(found@).len() == found@.len());
        assert(all.take(0) =~= Seq::<Seq<u8>>::empty());
        assert(scene_cells(paths) =~= Set::<(int, int)>::empty());
        lemma_draws_nothing(Scene::empty());
    }
    let mut i: usize = 0;
    while i < found.len()
        invariant
            i <= found@.len(),
            all == lines(input.spec_bytes()),
            texts(found@) == all,
            world.wf(),
            world@.pristine(),
            paths_in(all.take(i as int)) == Ok::<Seq<Seq<(int, int)>>, ParseError>(paths),
            Scene::empty().draws(scene_cells(paths), world@),
        decreases found@.len() - i,
    {
        let line: &[u8] = found[i];
        proof {
            assert(texts(found@)[i as int] == found@[i as int]@);
            assert(all.take(i + 1).drop_last() =~= all.take(i as int));
            assert(all.take(i + 1).last() == all[i as int]);
        }
        let ghost mid = world@;
        match read_line(line, &mut world) {
            Ok(()) => {
                proof {
                    let p = path_in(line@).unwrap();
                    lemma_draws_then(
                        Scene::empty(),
                        scene_cells(paths),
                        mid,
                        path_cells(p),
                        world@,
                    );
                    lemma_scene_cells_push(paths, p);
                    paths = paths.push(p);
                }
            },
            Err(e) => {
                proof {
                    lemma_paths_in_error(all, i + 1);
                }
                return Err(e);
            },
        }
        i = i + 1;
    }
    proof {
        assert(all.take(i as int) =~= all);
        assert(world@.rocks =~= scene_cells(paths));
    }
    Ok(world)
}

} // verus!
