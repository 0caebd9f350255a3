use falling_sand::parse::parse_input;
use falling_sand::world::{Clogged, Step, World};

const EXAMPLE: &str = "498,4 -> 498,6 -> 496,6\n503,4 -> 502,4 -> 502,9 -> 494,9";

fn bounds(world: &World) -> (i32, i32, i32, i32) {
    (world.min_x(), world.max_x(), world.min_y(), world.max_y())
}

#[test]
fn open_run_escapes_and_counts_one_grain_per_settled_step() {
    let mut world = parse_input(EXAMPLE).unwrap();
    let before = bounds(&world);
    let rocks = world.rock_count();
    let mut settled_steps = 0;
    let mut steps = 0;
    loop {
        match world.move_step() {
            Ok(Step::Settled) => settled_steps += 1,
            Ok(Step::Moved) => (),
            Err(_) => break,
        }
        steps += 1;
        assert_eq!(world.settled_count(), settled_steps);
        assert_eq!(bounds(&world), before);
        assert_eq!(world.rock_count(), rocks);
        assert!(!world.is_occupied(world.moving_sand_coord()));
    }
    assert_eq!(settled_steps, 24);
    assert_eq!(world.settled_count(), 24);
    let width = (before.1 - before.0 + 1) as usize;
    let height = (before.3 - before.2 + 1) as usize;
    assert!(steps <= width * height * (before.3 as usize + 1) + before.3 as usize);
}

#[test]
fn floored_run_clogs_within_its_bound_and_never_passes_the_floor() {
    let mut world = parse_input(EXAMPLE).unwrap();
    world.add_floor();
    let floor = world.max_y();
    let bound = (floor as usize) * (floor as usize) * (floor as usize + 1) + floor as usize;
    let mut steps = 0;
    loop {
        assert!(world.moving_sand_coord().1 < floor);
        let grain = world.moving_sand_coord();
        match world.move_step_part2() {
            Ok(Step::Settled) => assert!(world.is_sand(grain)),
            Ok(Step::Moved) => assert_eq!(world.moving_sand_coord().1, grain.1 + 1),
            Err(Clogged) => break,
        }
        steps += 1;
        assert!(steps <= bound);
        assert_eq!(world.max_y(), floor);
        assert_eq!(world.min_y(), 0);
    }
    assert_eq!(world.settled_count(), 93);
    assert_eq!((world.min_x(), world.max_x()), (490, 510));
}

#[test]
fn sand_never_lies_on_rock() {
    let mut world = parse_input(EXAMPLE).unwrap();
    world.add_floor();
    while world.move_step_part2().is_ok() {}
    for x in 480..=520 {
        for y in 0..=12 {
            assert!(!(world.is_rock((x, y)) && world.is_sand((x, y))));
        }
    }
}

#[test]
fn clogged_world_clogs_again() {
    let mut world = World::new();
    world.add_floor();
    while world.move_step_part2().is_ok() {}
    assert_eq!(world.settled_count(), 4);
    assert_eq!(world.move_step_part2(), Err(Clogged));
    assert_eq!(world.settled_count(), 4);
}

#[test]
fn a_second_floor_lies_two_rows_below_the_first() {
    let mut world = parse_input("499,1 -> 501,1").unwrap();
    world.add_floor();
    assert_eq!(world.max_y(), 3);
    assert_eq!(world.rock_count(), 6);
    world.add_floor();
    assert_eq!(world.max_y(), 5);
    assert_eq!(world.rock_count(), 9);
    assert!(world.is_rock((500, 5)));
}
