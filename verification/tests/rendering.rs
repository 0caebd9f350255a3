use falling_sand::parse::{parse_input, ParseError};
use falling_sand::pour::{part1, part2, RunEnd, RunEndPart2};
use falling_sand::render::Glyph;
use falling_sand::world::{Escaped, Step, World};

const EXAMPLE: &str = "498,4 -> 498,6 -> 496,6\n503,4 -> 502,4 -> 502,9 -> 494,9";

fn picture(world: &World) -> Vec<String> {
    world
        .render()
        .into_iter()
        .map(|row| String::from_utf8(row).unwrap())
        .collect()
}

#[test]
fn glyph_bytes() {
    assert_eq!(Glyph::SpawnSettled.byte(), b'X');
    assert_eq!(Glyph::SpawnEmpty.byte(), b'+');
    assert_eq!(Glyph::Grain.byte(), b'o');
    assert_eq!(Glyph::Sand.byte(), b'O');
    assert_eq!(Glyph::Rock.byte(), b'#');
    assert_eq!(Glyph::Floor.byte(), b'~');
    assert_eq!(Glyph::Air.byte(), b'.');
}

#[test]
fn fresh_example_as_drawn() {
    let world = parse_input(EXAMPLE).unwrap();
    assert_eq!(
        picture(&world),
        vec![
            "........+.....",
            "..............",
            "..............",
            "..............",
            "......#...##..",
            "......#...#...",
            "....###...#...",
            "..........#...",
            "..........#...",
            "~~#########~~~",
        ]
    );
}

#[test]
fn example_as_drawn_when_the_grain_escapes() {
    let mut world = parse_input(EXAMPLE).unwrap();
    while world.move_step().is_ok() {}
    assert_eq!(
        picture(&world),
        vec![
            "........+.....",
            "..............",
            "........O.....",
            ".......OOO....",
            "......#OOO##..",
            ".....O#OOO#...",
            "....###OOO#...",
            "......OOOO#...",
            "..oO.OOOOO#...",
            "~~#########~~~",
        ]
    );
}

#[test]
fn glyphs_in_order_of_precedence() {
    let mut world = parse_input(EXAMPLE).unwrap();
    assert_eq!(world.glyph_at((500, 0)), Glyph::SpawnEmpty);
    assert_eq!(world.move_step(), Ok(Step::Moved));
    assert_eq!(world.glyph_at((500, 0)), Glyph::SpawnEmpty);
    assert_eq!(world.glyph_at((500, 1)), Glyph::Grain);
    assert_eq!(world.glyph_at((498, 4)), Glyph::Rock);
    assert_eq!(world.glyph_at((499, 4)), Glyph::Air);
    assert_eq!(world.glyph_at((499, 9)), Glyph::Rock);
    assert_eq!(world.glyph_at((400, 9)), Glyph::Floor);
    while world.settled_count() == 0 {
        world.move_step().unwrap();
    }
    assert_eq!(world.glyph_at((500, 8)), Glyph::Sand);
}

#[test]
fn clogged_spawn_is_marked() {
    let mut world = World::new();
    world.add_floor();
    while world.move_step_part2().is_ok() {}
    assert_eq!(world.glyph_at((500, 0)), Glyph::SpawnSettled);
    assert_eq!(picture(&world), vec!["...X...", "..OOO..", "~~~~~~~"]);
}

#[test]
fn empty_world_draws_no_column() {
    let world = World::new();
    assert_eq!(world.render_row(0), Vec::<u8>::new());
    assert_eq!(world.render(), vec![Vec::<u8>::new()]);
}

#[test]
fn rows_of_the_picture_are_the_rows_of_the_bounds() {
    let mut world = parse_input("-2,-1 -> -2,1").unwrap();
    assert_eq!(world.render_row(-1), b"..#..".to_vec());
    assert_eq!(world.render_row(0), b"..#..".to_vec());
    assert_eq!(world.render_row(1), b"~~#~~".to_vec());
    assert_eq!(world.render_row(2), b".....".to_vec());
    assert_eq!(picture(&world), vec!["..#..", "..#..", "~~#~~"]);
    world.add_floor();
    assert_eq!(picture(&world), vec!["..#..", "..#..", "..#..", ".....", "~~#~~"]);
}

#[test]
fn part1_of_the_example() {
    assert_eq!(
        part1(EXAMPLE),
        Ok((24, RunEnd::Escaped(Escaped { at: (493, 9) })))
    );
}

#[test]
fn part2_of_the_example() {
    assert_eq!(part2(EXAMPLE), Ok((93, RunEndPart2::Clogged)));
}

#[test]
fn part1_with_the_source_blocked() {
    assert_eq!(part1("499,1 -> 501,1"), Ok((1, RunEnd::Blocked)));
    assert_eq!(part1("500,0 -> 500,0\n499,1 -> 501,1"), Ok((1, RunEnd::Blocked)));
}

#[test]
fn part1_and_part2_of_the_empty_text() {
    assert_eq!(part1(""), Ok((0, RunEnd::Escaped(Escaped { at: (500, 1) }))));
    assert_eq!(part2(""), Ok((4, RunEndPart2::Clogged)));
}

#[test]
fn part1_and_part2_report_parse_errors() {
    assert_eq!(part1("1,2 -> 3"), Err(ParseError::MissingComma));
    assert_eq!(part2("1,2 -> 3,"), Err(ParseError::MissingCoordinate));
}

#[test]
fn part2_at_the_bottom_of_the_grid() {
    assert_eq!(
        part2("0,2147483646 -> 0,2147483646"),
        Ok((0, RunEndPart2::OffGrid))
    );
}

#[test]
fn run_stops_where_the_step_would() {
    let mut world = parse_input(EXAMPLE).unwrap();
    assert_eq!(world.run(), RunEnd::Escaped(Escaped { at: (493, 9) }));
    assert_eq!(world.settled_count(), 24);
    assert_eq!(world.moving_sand_coord(), (494, 8));
    assert_eq!(world.move_step(), Err(Escaped { at: (493, 9) }));

    let mut world = parse_input(EXAMPLE).unwrap();
    world.add_floor();
    assert_eq!(world.run_part2(), RunEndPart2::Clogged);
    assert_eq!(world.settled_count(), 93);
    assert!(world.is_sand((500, 0)));
}
