use falling_sand::parse::{
    draw_path, draw_segment, parse_coordinate, parse_corner, parse_input, parse_line, parse_path,
    split_lines, ParseError,
};
use falling_sand::text::{find_in, split_text};
use falling_sand::world::World;
use std::collections::HashSet;

const EXAMPLE: &str = "498,4 -> 498,6 -> 496,6\n503,4 -> 502,4 -> 502,9 -> 494,9";

fn expected_cells(paths: &[Vec<(i32, i32)>]) -> HashSet<(i32, i32)> {
    let mut cells = HashSet::new();
    for path in paths {
        for pair in path.windows(2) {
            let (a, b) = (pair[0], pair[1]);
            for x in a.0.min(b.0)..=a.0.max(b.0) {
                for y in a.1.min(b.1)..=a.1.max(b.1) {
                    cells.insert((x, y));
                }
            }
        }
    }
    cells
}

fn assert_rocks(world: &World, paths: &[Vec<(i32, i32)>], window: (i32, i32, i32, i32)) {
    let cells = expected_cells(paths);
    assert_eq!(world.rock_count(), cells.len());
    for x in window.0..=window.1 {
        for y in window.2..=window.3 {
            assert_eq!(world.is_rock((x, y)), cells.contains(&(x, y)), "at ({}, {})", x, y);
        }
    }
}

#[test]
fn example_rocks_are_the_rectangles_between_corners() {
    let world = parse_input(EXAMPLE).unwrap();
    let paths = vec![
        vec![(498, 4), (498, 6), (496, 6)],
        vec![(503, 4), (502, 4), (502, 9), (494, 9)],
    ];
    assert_rocks(&world, &paths, (480, 520, -5, 20));
    assert_eq!(world.rock_count(), 20);
    assert_eq!(
        (world.min_x(), world.max_x(), world.min_y(), world.max_y()),
        (494, 503, 0, 9)
    );
    assert_eq!(world.settled_count(), 0);
    assert_eq!(world.moving_sand_coord(), (500, 0));
}

#[test]
fn diagonal_corners_fill_their_rectangle() {
    let world = parse_input("2,3 -> 4,1").unwrap();
    assert_rocks(&world, &[vec![(2, 3), (4, 1)]], (0, 6, -1, 5));
    assert_eq!(world.rock_count(), 9);
}

#[test]
fn single_point_line_adds_one_cell() {
    let world = parse_input("500,5 -> 500,5").unwrap();
    assert_eq!(world.rock_count(), 1);
    assert!(world.is_rock((500, 5)));
    assert_eq!(
        (world.min_x(), world.max_x(), world.min_y(), world.max_y()),
        (500, 500, 0, 5)
    );
}

#[test]
fn single_corner_draws_nothing() {
    let world = parse_input("500,5").unwrap();
    assert_eq!(world.rock_count(), 0);
    assert!(!world.is_rock((500, 5)));
    assert_eq!(
        (world.min_x(), world.max_x(), world.min_y(), world.max_y()),
        (i32::MAX, i32::MIN, 0, 0)
    );
}

#[test]
fn empty_text_is_the_empty_world() {
    let world = parse_input("").unwrap();
    assert_eq!(world.rock_count(), 0);
    assert_eq!(
        (world.min_x(), world.max_x(), world.min_y(), world.max_y()),
        (i32::MAX, i32::MIN, 0, 0)
    );
    assert_eq!(world.moving_sand_coord(), (500, 0));
}

#[test]
fn final_line_ending_is_optional() {
    let plain = parse_input(EXAMPLE).unwrap();
    let ended = parse_input("498,4 -> 498,6 -> 496,6\n503,4 -> 502,4 -> 502,9 -> 494,9\n").unwrap();
    assert_eq!(plain.rock_count(), ended.rock_count());
    assert_eq!(ended.rock_count(), 20);
}

#[test]
fn carriage_return_before_line_feed_belongs_to_the_line_ending() {
    let world = parse_input("498,4 -> 498,6\r\n503,4 -> 502,4\r\n").unwrap();
    assert_eq!(world.rock_count(), 5);
    assert_eq!(
        parse_input("498,4 -> 498,6\r").err(),
        Some(ParseError::NotAnInteger)
    );
    assert_eq!(
        parse_input("498,4 -> 498,6\r\n503,4 -> 502,4\r").err(),
        Some(ParseError::NotAnInteger)
    );
}

#[test]
fn blank_line_is_no_polyline() {
    assert_eq!(parse_input("\n").err(), Some(ParseError::MissingComma));
    assert_eq!(
        parse_input("498,4 -> 498,6\n\n503,4 -> 502,4").err(),
        Some(ParseError::MissingComma)
    );
}

#[test]
fn first_error_is_reported() {
    assert_eq!(
        parse_input("1,2 -> x,3 -> 4\n5").err(),
        Some(ParseError::NotAnInteger)
    );
    assert_eq!(
        parse_input("1,2 -> 4 -> x,3").err(),
        Some(ParseError::MissingComma)
    );
    assert_eq!(parse_input("1,2\n,\nx,1").err(), Some(ParseError::MissingCoordinate));
    assert_eq!(parse_input("a,").err(), Some(ParseError::NotAnInteger));
    assert_eq!(parse_input("1,2 ->3,4").err(), Some(ParseError::NotAnInteger));
    assert_eq!(parse_input("1,2 -> 3,4 ").err(), Some(ParseError::NotAnInteger));
}

#[test]
fn negative_coordinates_and_bounds() {
    let world = parse_input("-5,-3 -> -5,-1").unwrap();
    assert_eq!(world.rock_count(), 3);
    assert!(world.is_rock((-5, -2)));
    assert_eq!(
        (world.min_x(), world.max_x(), world.min_y(), world.max_y()),
        (-5, -5, -3, 0)
    );
}

#[test]
fn numbers() {
    assert_eq!(parse_coordinate(b"0"), Ok(0));
    assert_eq!(parse_coordinate(b"-0"), Ok(0));
    assert_eq!(parse_coordinate(b"+7"), Ok(7));
    assert_eq!(parse_coordinate(b"007"), Ok(7));
    assert_eq!(parse_coordinate(b"-42"), Ok(-42));
    assert_eq!(parse_coordinate(b"2147483647"), Ok(i32::MAX));
    assert_eq!(parse_coordinate(b"-2147483648"), Ok(i32::MIN));
    assert_eq!(parse_coordinate(b"0000000000000000000002147483647"), Ok(i32::MAX));
    assert_eq!(parse_coordinate(b"2147483648"), Err(ParseError::OutOfRange));
    assert_eq!(parse_coordinate(b"-2147483649"), Err(ParseError::OutOfRange));
    assert_eq!(
        parse_coordinate(b"99999999999999999999999999999999999999"),
        Err(ParseError::OutOfRange)
    );
    assert_eq!(parse_coordinate(b""), Err(ParseError::MissingCoordinate));
    assert_eq!(parse_coordinate(b"-"), Err(ParseError::NotAnInteger));
    assert_eq!(parse_coordinate(b"+"), Err(ParseError::NotAnInteger));
    assert_eq!(parse_coordinate(b"--1"), Err(ParseError::NotAnInteger));
    assert_eq!(parse_coordinate(b" 1"), Err(ParseError::NotAnInteger));
    assert_eq!(parse_coordinate(b"1 "), Err(ParseError::NotAnInteger));
    assert_eq!(parse_coordinate(b"1_000"), Err(ParseError::NotAnInteger));
    assert_eq!(parse_coordinate(b"99999999999x"), Err(ParseError::NotAnInteger));
}

#[test]
fn numbers_agree_with_the_standard_parser() {
    let texts = [
        "0", "-0", "+0", "12", "-12", "+12", "2147483647", "2147483648", "-2147483648",
        "-2147483649", "", "-", "+", "1a", "a1", " 1", "0x10", "1.5", "+-1", "00012",
    ];
    for text in texts {
        assert_eq!(parse_coordinate(text.as_bytes()).ok(), text.parse::<i32>().ok(), "{:?}", text);
    }
}

#[test]
fn corners() {
    assert_eq!(parse_corner(b"498,4"), Ok((498, 4)));
    assert_eq!(parse_corner(b"-1,+2"), Ok((-1, 2)));
    assert_eq!(parse_corner(b"1,2,3"), Ok((1, 2)));
    assert_eq!(parse_corner(b"1,2,"), Ok((1, 2)));
    assert_eq!(parse_corner(b"1,2,x"), Ok((1, 2)));
    assert_eq!(parse_corner(b"12"), Err(ParseError::MissingComma));
    assert_eq!(parse_corner(b""), Err(ParseError::MissingComma));
    assert_eq!(parse_corner(b","), Err(ParseError::MissingCoordinate));
    assert_eq!(parse_corner(b"1,"), Err(ParseError::MissingCoordinate));
    assert_eq!(parse_corner(b",1"), Err(ParseError::MissingCoordinate));
    assert_eq!(parse_corner(b"x,"), Err(ParseError::NotAnInteger));
    assert_eq!(parse_corner(b"1,,2"), Err(ParseError::MissingCoordinate));
    assert_eq!(parse_corner(b"1, 2"), Err(ParseError::NotAnInteger));
    assert_eq!(parse_corner(b"3000000000,1"), Err(ParseError::OutOfRange));
}

#[test]
fn corner_lists() {
    assert_eq!(
        parse_path(b"498,4 -> 498,6 -> 496,6"),
        Ok(vec![(498, 4), (498, 6), (496, 6)])
    );
    assert_eq!(parse_path(b"1,2"), Ok(vec![(1, 2)]));
    assert_eq!(parse_path(b""), Err(ParseError::MissingComma));
    assert_eq!(parse_path(b"1,2 -> "), Err(ParseError::MissingComma));
    assert_eq!(parse_path(b"1,2 -> -> 3,4"), Err(ParseError::NotAnInteger));
    assert_eq!(parse_path(b"1,2 ->  -> 3,4"), Err(ParseError::MissingComma));
    assert_eq!(parse_path(b"1,2->3,4"), Err(ParseError::NotAnInteger));
}

#[test]
fn parse_line_adds_to_a_world_and_leaves_it_alone_on_error() {
    let mut world = World::new();
    assert_eq!(parse_line("498,4 -> 498,6", &mut world), Ok(()));
    assert_eq!(world.rock_count(), 3);
    assert_eq!(parse_line("503,4 -> 502,4 -> oops", &mut world), Err(ParseError::MissingComma));
    assert_eq!(world.rock_count(), 3);
    assert_eq!(
        (world.min_x(), world.max_x(), world.min_y(), world.max_y()),
        (498, 498, 0, 6)
    );
    assert_eq!(parse_line("503,4 -> 502,4", &mut world), Ok(()));
    assert_eq!(world.rock_count(), 5);
    assert_eq!(
        (world.min_x(), world.max_x(), world.min_y(), world.max_y()),
        (498, 503, 0, 6)
    );
}

#[test]
fn drawing_by_hand() {
    let mut world = World::new();
    draw_segment(&mut world, (3, 1), (1, 1));
    assert_eq!(world.rock_count(), 3);
    draw_path(&mut world, &vec![(1, 1), (1, 3), (2, 3)]);
    assert_eq!(world.rock_count(), 6);
    assert_rocks(
        &world,
        &[vec![(3, 1), (1, 1)], vec![(1, 1), (1, 3), (2, 3)]],
        (-2, 6, -2, 6),
    );
    draw_path(&mut world, &vec![]);
    draw_path(&mut world, &vec![(9, 9)]);
    assert_eq!(world.rock_count(), 6);
    assert_eq!(world.max_x(), 3);
}

#[test]
fn finding() {
    assert_eq!(find_in(b"a -> b", b" -> "), Some(1));
    assert_eq!(find_in(b"a -> b -> c", b" -> "), Some(1));
    assert_eq!(find_in(b" -> ", b" -> "), Some(0));
    assert_eq!(find_in(b"a ->b", b" -> "), None);
    assert_eq!(find_in(b"", b","), None);
    assert_eq!(find_in(b"ab", b"abc"), None);
    assert_eq!(find_in(b"aab", b"ab"), Some(1));
}

#[test]
fn splitting() {
    let pieces = split_text(b"a -> b -> c", b" -> ");
    assert_eq!(pieces, vec![&b"a"[..], &b"b"[..], &b"c"[..]]);
    assert_eq!(split_text(b"", b","), vec![&b""[..]]);
    assert_eq!(split_text(b",", b","), vec![&b""[..], &b""[..]]);
    assert_eq!(split_text(b"a,,b,", b","), vec![&b"a"[..], &b""[..], &b"b"[..], &b""[..]]);
    assert_eq!(split_text(b"a -> -> b", b" -> "), vec![&b"a"[..], &b"-> b"[..]]);
    assert_eq!(split_text(b"aaa", b"aa"), vec![&b""[..], &b"a"[..]]);
}

#[test]
fn splitting_agrees_with_the_standard_splitter() {
    let texts = ["", "a", "a -> b", " -> ", "a ->  -> b", " ->  -> ", "x -> -> y -> ", "- > -> x"];
    for text in texts {
        let ours: Vec<&[u8]> = split_text(text.as_bytes(), b" -> ");
        let theirs: Vec<&[u8]> = text.split(" -> ").map(|piece| piece.as_bytes()).collect();
        assert_eq!(ours, theirs, "{:?}", text);
    }
}

#[test]
fn lines_of_a_text() {
    assert_eq!(split_lines(b""), Vec::<&[u8]>::new());
    assert_eq!(split_lines(b"a"), vec![&b"a"[..]]);
    assert_eq!(split_lines(b"a\n"), vec![&b"a"[..]]);
    assert_eq!(split_lines(b"a\nb"), vec![&b"a"[..], &b"b"[..]]);
    assert_eq!(split_lines(b"\n"), vec![&b""[..]]);
    assert_eq!(split_lines(b"\n\n"), vec![&b""[..], &b""[..]]);
    assert_eq!(split_lines(b"a\r\nb\r\n"), vec![&b"a"[..], &b"b"[..]]);
    assert_eq!(split_lines(b"a\r\nb\r"), vec![&b"a"[..], &b"b\r"[..]]);
    assert_eq!(split_lines(b"a\r\r\n"), vec![&b"a\r"[..]]);
    assert_eq!(split_lines(b"\r\n"), vec![&b""[..]]);
    assert_eq!(split_lines(b"a\rb\n"), vec![&b"a\rb"[..]]);
}

#[test]
fn lines_agree_with_the_standard_lines() {
    let texts = [
        "", "a", "a\n", "\n", "\n\n", "a\nb", "a\n\nb\n", "a\r\nb", "a\r\nb\r\n", "a\r", "\r",
        "\r\n", "a\r\r\n", "\n\r", "x\n\r\ny", "1,1 -> 2,1\r\n3,3 -> 3,4\n",
    ];
    for text in texts {
        let ours: Vec<&[u8]> = split_lines(text.as_bytes());
        let theirs: Vec<&[u8]> = text.lines().map(|line| line.as_bytes()).collect();
        assert_eq!(ours, theirs, "{:?}", text);
    }
}

#[test]
fn empty_pattern_is_found_nowhere() {
    assert_eq!(find_in(b"abc", b""), None);
    assert_eq!(find_in(b"", b""), None);
    assert_eq!(split_text(b"abc", b""), vec![&b"abc"[..]]);
}
