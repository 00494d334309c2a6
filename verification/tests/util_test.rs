use snake_multiplayer::util::{cell_at, step_point, Direction, Point, CELLS, HEIGHT, WIDTH};

#[test]
fn board_is_eighty_by_sixty() {
    assert_eq!(WIDTH, 80);
    assert_eq!(HEIGHT, 60);
    assert_eq!(CELLS, 4800);
}

#[test]
fn direction_codes_are_one_to_four() {
    assert_eq!(Direction::Up.code(), 1);
    assert_eq!(Direction::Down.code(), 2);
    assert_eq!(Direction::Left.code(), 3);
    assert_eq!(Direction::Right.code(), 4);
    assert_eq!(Direction::from_code(1), Some(Direction::Up));
    assert_eq!(Direction::from_code(2), Some(Direction::Down));
    assert_eq!(Direction::from_code(3), Some(Direction::Left));
    assert_eq!(Direction::from_code(4), Some(Direction::Right));
    assert_eq!(Direction::from_code(0), None);
    assert_eq!(Direction::from_code(5), None);
    assert_eq!(Direction::from_code(255), None);
}

#[test]
fn opposite_directions() {
    assert_eq!(Direction::Up.opposite(), Direction::Down);
    assert_eq!(Direction::Down.opposite(), Direction::Up);
    assert_eq!(Direction::Left.opposite(), Direction::Right);
    assert_eq!(Direction::Right.opposite(), Direction::Left);
}

#[test]
fn points_on_and_off_the_board() {
    assert!(Point(0, 0).is_on_board());
    assert!(Point(79, 59).is_on_board());
    assert!(!Point(80, 0).is_on_board());
    assert!(!Point(0, 60).is_on_board());
    assert!(!Point(-1, 0).is_on_board());
    assert!(!Point(0, -1).is_on_board());
}

#[test]
fn step_wraps_only_at_the_edges() {
    for y in 0..HEIGHT {
        for x in 0..WIDTH {
            let p = Point(x, y);
            assert_eq!(step_point(p, Direction::Right), Point((x + 1) % WIDTH, y));
            assert_eq!(step_point(p, Direction::Left), Point((x + WIDTH - 1) % WIDTH, y));
            assert_eq!(step_point(p, Direction::Down), Point(x, (y + 1) % HEIGHT));
            assert_eq!(step_point(p, Direction::Up), Point(x, (y + HEIGHT - 1) % HEIGHT));
        }
    }
    assert_eq!(step_point(Point(79, 10), Direction::Right), Point(0, 10));
    assert_eq!(step_point(Point(0, 10), Direction::Left), Point(79, 10));
    assert_eq!(step_point(Point(10, 0), Direction::Up), Point(10, 59));
    assert_eq!(step_point(Point(10, 59), Direction::Down), Point(10, 0));
}

#[test]
fn cells_are_counted_row_by_row() {
    assert_eq!(cell_at(0), Point(0, 0));
    assert_eq!(cell_at(79), Point(79, 0));
    assert_eq!(cell_at(80), Point(0, 1));
    assert_eq!(cell_at(4799), Point(79, 59));
}
