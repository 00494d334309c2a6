use snake_multiplayer::server::game::{GameContext, GameError, Snake};
use snake_multiplayer::util::{Direction, Point, HEIGHT, WIDTH};

fn snake(body: &[(i32, i32)], head: (i32, i32), direction: Direction) -> Snake {
    let body: Vec<Point> = body.iter().map(|&(x, y)| Point(x, y)).collect();
    Snake::new(body, Point(head.0, head.1), direction).unwrap()
}

fn world(snakes: Vec<(u8, Snake)>, food: (i32, i32)) -> GameContext {
    let mut context = GameContext::new(7);
    for (id, s) in snakes {
        context.put_snake(id, s).unwrap();
    }
    context.place_food(Point(food.0, food.1)).unwrap();
    context
}

fn cells_of(context: &GameContext) -> Vec<Point> {
    let mut cells = Vec::new();
    for id in context.snake_ids() {
        let s = context.snake(id).unwrap();
        cells.extend(s.body());
        cells.push(s.head());
    }
    cells
}

fn full_board_snake() -> Snake {
    let mut body = Vec::new();
    for y in 0..HEIGHT {
        for x in 0..WIDTH {
            if (x, y) != (5, 5) {
                body.push(Point(x, y));
            }
        }
    }
    Snake::new(body, Point(5, 5), Direction::Right).unwrap()
}

#[test]
fn new_world_is_empty_with_food_at_ten_four() {
    let context = GameContext::new(0);
    assert_eq!(context.len(), 0);
    assert_eq!(context.food(), Point(10, 4));
    assert!(context.snake_ids().is_empty());
    assert!(context.snake(1).is_none());
}

#[test]
fn update_of_empty_world_changes_nothing() {
    let mut context = GameContext::new(0);
    assert_eq!(context.update(), (None, None));
    assert_eq!(context.food(), Point(10, 4));
    assert_eq!(context.len(), 0);
}

#[test]
fn snake_eats_and_grows() {
    let mut context = world(vec![(1, snake(&[(4, 5)], (5, 5), Direction::Right))], (6, 5));
    let (eater, killed) = context.update();
    assert_eq!(eater, Some(1));
    assert_eq!(killed, None);
    let s = context.snake(1).unwrap();
    assert_eq!(s.head(), Point(6, 5));
    assert_eq!(s.body(), vec![Point(4, 5), Point(5, 5)]);
    let food = context.food();
    assert_ne!(food, Point(6, 5));
    assert!(food.is_on_board());
    assert!(!cells_of(&context).contains(&food));
    assert!(!context.is_occupied(food));
}

#[test]
fn snake_moves_without_growing() {
    let mut context = world(vec![(1, snake(&[(3, 5), (4, 5)], (5, 5), Direction::Down))], (6, 5));
    assert_eq!(context.update(), (None, None));
    let s = context.snake(1).unwrap();
    assert_eq!(s.head(), Point(5, 6));
    assert_eq!(s.body(), vec![Point(4, 5), Point(5, 5)]);
    assert_eq!(s.direction(), Direction::Down);
    assert_eq!(context.food(), Point(6, 5));
}

#[test]
fn head_wraps_at_right_edge() {
    let mut context = world(vec![(1, snake(&[(78, 10)], (79, 10), Direction::Right))], (40, 40));
    assert_eq!(context.update(), (None, None));
    assert_eq!(context.snake(1).unwrap().head(), Point(0, 10));
    assert_eq!(context.snake(1).unwrap().body(), vec![Point(79, 10)]);
}

#[test]
fn head_wraps_at_every_edge() {
    let cases = [
        ((0, 10), Direction::Left, (79, 10)),
        ((79, 10), Direction::Right, (0, 10)),
        ((10, 0), Direction::Up, (10, 59)),
        ((10, 59), Direction::Down, (10, 0)),
        ((0, 0), Direction::Up, (0, 59)),
        ((0, 0), Direction::Left, (79, 0)),
        ((79, 59), Direction::Down, (79, 0)),
        ((79, 59), Direction::Right, (0, 59)),
    ];
    for (head, direction, expected) in cases {
        let mut s = snake(&[(40, 30)], head, direction);
        s.update_head();
        assert_eq!(s.head(), Point(expected.0, expected.1));
        assert_eq!(s.body(), vec![Point(40, 30), Point(head.0, head.1)]);
    }
}

#[test]
fn head_does_not_wrap_inside_the_board() {
    let cases = [
        ((1, 10), Direction::Left, (0, 10)),
        ((78, 10), Direction::Right, (79, 10)),
        ((10, 1), Direction::Up, (10, 0)),
        ((10, 58), Direction::Down, (10, 59)),
        ((40, 30), Direction::Up, (40, 29)),
        ((40, 30), Direction::Down, (40, 31)),
        ((40, 30), Direction::Left, (39, 30)),
        ((40, 30), Direction::Right, (41, 30)),
        ((0, 10), Direction::Up, (0, 9)),
        ((79, 10), Direction::Down, (79, 11)),
    ];
    for (head, direction, expected) in cases {
        let mut s = snake(&[(20, 20)], head, direction);
        s.update_head();
        assert_eq!(s.head(), Point(expected.0, expected.1));
    }
}

#[test]
fn two_snakes_meeting_head_on_are_both_killed() {
    let mut context = world(
        vec![
            (1, snake(&[(8, 10)], (9, 10), Direction::Right)),
            (2, snake(&[(12, 10)], (11, 10), Direction::Left)),
        ],
        (40, 40),
    );
    let (eater, killed) = context.update();
    assert_eq!(eater, None);
    assert_eq!(killed, Some(vec![1, 2]));
    assert_eq!(context.snake(1).unwrap().head(), Point(10, 10));
    assert_eq!(context.snake(2).unwrap().head(), Point(10, 10));
    assert_eq!(context.len(), 2);
}

#[test]
fn snake_running_into_its_own_body_is_killed() {
    let body = [(5, 5), (6, 5), (6, 6), (5, 6), (4, 6)];
    let mut context = world(vec![(3, snake(&body, (4, 5), Direction::Right))], (40, 40));
    let (eater, killed) = context.update();
    assert_eq!(eater, None);
    assert_eq!(killed, None);
    assert_eq!(context.snake(3).unwrap().head(), Point(5, 5));

    let body = [(9, 9), (5, 5), (6, 5), (6, 6), (5, 6), (4, 6)];
    let mut context = world(vec![(3, snake(&body, (4, 5), Direction::Right))], (40, 40));
    let (eater, killed) = context.update();
    assert_eq!(eater, None);
    assert_eq!(killed, Some(vec![3]));
}

#[test]
fn snake_running_into_another_body_is_killed_alone() {
    let mut context = world(
        vec![
            (4, snake(&[(10, 8), (10, 9), (10, 10)], (10, 11), Direction::Down)),
            (9, snake(&[(7, 10)], (8, 10), Direction::Right)),
        ],
        (40, 40),
    );
    assert_eq!(context.update(), (None, None));
    let (eater, killed) = context.update();
    assert_eq!(eater, None);
    assert_eq!(killed, Some(vec![9]));
    assert_eq!(context.collisions(), vec![9]);
    assert_eq!(context.count_capped(Point(10, 10)), 2);
    assert_eq!(context.count_capped(Point(10, 14)), 0);
    assert_eq!(context.count_capped(Point(10, 13)), 1);
}

#[test]
fn eating_happens_before_collision() {
    let mut context = world(
        vec![
            (1, snake(&[(8, 10)], (9, 10), Direction::Right)),
            (2, snake(&[(12, 10)], (11, 10), Direction::Left)),
        ],
        (10, 10),
    );
    let (eater, killed) = context.update();
    assert_eq!(eater, Some(2));
    assert_eq!(killed, Some(vec![1, 2]));
    assert_eq!(context.snake(1).unwrap().body(), vec![Point(8, 10), Point(9, 10)]);
    assert_eq!(context.snake(2).unwrap().body(), vec![Point(12, 10), Point(11, 10)]);
    assert!(!context.is_occupied(context.food()));
}

#[test]
fn killed_snakes_stay_until_removed() {
    let mut context = world(
        vec![
            (1, snake(&[(8, 10)], (9, 10), Direction::Right)),
            (2, snake(&[(12, 10)], (11, 10), Direction::Left)),
        ],
        (40, 40),
    );
    context.update();
    assert_eq!(context.snake_ids(), vec![1, 2]);
    context.kill_snake(1);
    assert_eq!(context.snake_ids(), vec![2]);
    context.kill_snake(1);
    assert_eq!(context.snake_ids(), vec![2]);
    context.kill_snake(2);
    assert_eq!(context.len(), 0);
}

#[test]
fn change_direction_is_unconditional() {
    let mut context = world(vec![(1, snake(&[(4, 5)], (5, 5), Direction::Right))], (40, 40));
    assert!(context.change_direction(1, Direction::Left));
    assert_eq!(context.snake(1).unwrap().direction(), Direction::Left);
    assert!(!context.change_direction(2, Direction::Up));
    let (_, killed) = context.update();
    assert_eq!(context.snake(1).unwrap().head(), Point(4, 5));
    assert_eq!(killed, None);

    let mut s = snake(&[(4, 5)], (5, 5), Direction::Up);
    s.change_direction(Direction::Down);
    assert_eq!(s.direction(), Direction::Down);
    s.change_direction(Direction::Down);
    assert_eq!(s.direction(), Direction::Down);
}

#[test]
fn snake_new_checks_body_and_board() {
    assert!(Snake::new(vec![], Point(1, 1), Direction::Up).is_none());
    assert!(Snake::new(vec![Point(0, 0)], Point(80, 1), Direction::Up).is_none());
    assert!(Snake::new(vec![Point(0, 0)], Point(1, 60), Direction::Up).is_none());
    assert!(Snake::new(vec![Point(0, 0)], Point(-1, 1), Direction::Up).is_none());
    assert!(Snake::new(vec![Point(0, -1)], Point(1, 1), Direction::Up).is_none());
    assert!(Snake::new(vec![Point(0, 0), Point(80, 0)], Point(1, 1), Direction::Up).is_none());
    let s = Snake::new(vec![Point(0, 0), Point(79, 59)], Point(1, 1), Direction::Up).unwrap();
    assert_eq!(s.body(), vec![Point(0, 0), Point(79, 59)]);
    assert_eq!(s.head(), Point(1, 1));
    assert!(s.occupies(Point(79, 59)));
    assert!(s.occupies(Point(1, 1)));
    assert!(!s.occupies(Point(2, 2)));
    assert_eq!(s.count_capped(Point(1, 1)), 1);
}

#[test]
fn count_is_capped_at_two() {
    let s = snake(&[(1, 1), (1, 1), (1, 1), (2, 2)], (1, 1), Direction::Up);
    assert_eq!(s.count_capped(Point(1, 1)), 2);
    assert_eq!(s.count_capped(Point(2, 2)), 1);
    assert_eq!(s.count_capped(Point(3, 3)), 0);
}

#[test]
fn spawn_snake_places_two_free_cells() {
    for seed in 0..50u64 {
        let mut context = GameContext::new(seed);
        context.put_snake(1, snake(&[(3, 3), (4, 3)], (5, 3), Direction::Right)).unwrap();
        let before = cells_of(&context);
        context.spawn_snake(2).unwrap();
        let s = context.snake(2).unwrap();
        let head = s.head();
        let body = s.body();
        assert_eq!(body.len(), 1);
        assert_eq!(s.direction(), Direction::Right);
        assert!(head.is_on_board());
        assert!(body[0].is_on_board());
        assert_eq!(body[0].1, head.1);
        assert_eq!(body[0].0, (head.0 + WIDTH - 1) % WIDTH);
        assert!(!before.contains(&head));
        assert!(!before.contains(&body[0]));
        assert_ne!(head, context.food());
        assert_ne!(body[0], context.food());
        assert_eq!(context.food(), Point(10, 4));
        assert_eq!(context.snake(1).unwrap().head(), Point(5, 3));
    }
}

#[test]
fn spawn_snake_refuses_ids_outside_range() {
    let mut context = GameContext::new(1);
    assert_eq!(context.spawn_snake(0), Err(GameError::InvalidId));
    assert_eq!(context.spawn_snake(255), Err(GameError::InvalidId));
    assert_eq!(context.len(), 0);
    assert_eq!(context.spawn_snake(1), Ok(()));
    assert_eq!(context.spawn_snake(254), Ok(()));
    assert_eq!(context.snake_ids(), vec![1, 254]);
}

#[test]
fn spawn_snake_fills_the_only_free_pair() {
    let mut body = Vec::new();
    for y in 0..HEIGHT {
        for x in 0..WIDTH {
            if (x, y) != (5, 5) && (x, y) != (20, 30) && (x, y) != (21, 30) && (x, y) != (10, 4) {
                body.push(Point(x, y));
            }
        }
    }
    let big = Snake::new(body, Point(5, 5), Direction::Right).unwrap();
    let mut context = GameContext::new(3);
    context.put_snake(1, big).unwrap();
    assert_eq!(context.spawn_cells(), vec![Point(21, 30)]);
    assert_eq!(context.spawn_snake(2), Ok(()));
    assert_eq!(context.snake(2).unwrap().head(), Point(21, 30));
    assert_eq!(context.snake(2).unwrap().body(), vec![Point(20, 30)]);
    assert_eq!(context.spawn_snake(3), Err(GameError::NoSpace));
    assert_eq!(context.snake_ids(), vec![1, 2]);
}

#[test]
fn spawn_snake_on_full_board_reports_no_space() {
    let mut context = GameContext::new(3);
    context.put_snake(1, full_board_snake()).unwrap();
    assert!(context.spawn_cells().is_empty());
    assert_eq!(context.spawn_snake(2), Err(GameError::NoSpace));
    assert_eq!(context.len(), 1);
}

#[test]
fn spawn_snake_wraps_body_at_left_edge() {
    let mut context = GameContext::new(3);
    assert_eq!(context.place_snake(4, Point(0, 7)), Ok(()));
    assert_eq!(context.snake(4).unwrap().body(), vec![Point(79, 7)]);
    assert_eq!(context.snake(4).unwrap().head(), Point(0, 7));
}

#[test]
fn place_snake_refuses_taken_cells() {
    let mut context = world(vec![(1, snake(&[(4, 5)], (5, 5), Direction::Right))], (10, 4));
    assert_eq!(context.place_snake(2, Point(5, 5)), Err(GameError::NotFree));
    assert_eq!(context.place_snake(2, Point(4, 5)), Err(GameError::NotFree));
    assert_eq!(context.place_snake(2, Point(6, 5)), Err(GameError::NotFree));
    assert_eq!(context.place_snake(2, Point(10, 4)), Err(GameError::NotFree));
    assert_eq!(context.place_snake(2, Point(11, 4)), Err(GameError::NotFree));
    assert_eq!(context.place_snake(2, Point(80, 4)), Err(GameError::NotFree));
    assert_eq!(context.place_snake(2, Point(3, -1)), Err(GameError::NotFree));
    assert_eq!(context.place_snake(0, Point(20, 20)), Err(GameError::InvalidId));
    assert_eq!(context.place_snake(255, Point(20, 20)), Err(GameError::InvalidId));
    assert_eq!(context.len(), 1);
    assert_eq!(context.place_snake(2, Point(7, 5)), Ok(()));
    assert_eq!(context.snake(2).unwrap().body(), vec![Point(6, 5)]);
}

#[test]
fn place_food_refuses_snake_cells() {
    let mut context = world(vec![(1, snake(&[(4, 5)], (5, 5), Direction::Right))], (10, 4));
    assert_eq!(context.place_food(Point(5, 5)), Err(GameError::NotFree));
    assert_eq!(context.place_food(Point(4, 5)), Err(GameError::NotFree));
    assert_eq!(context.place_food(Point(80, 5)), Err(GameError::NotFree));
    assert_eq!(context.food(), Point(10, 4));
    assert_eq!(context.place_food(Point(6, 5)), Ok(()));
    assert_eq!(context.food(), Point(6, 5));
}

#[test]
fn put_snake_refuses_ids_outside_range() {
    let mut context = GameContext::new(1);
    let s = snake(&[(4, 5)], (5, 5), Direction::Right);
    assert_eq!(context.put_snake(0, s), Err(GameError::InvalidId));
    let s = snake(&[(4, 5)], (5, 5), Direction::Right);
    assert_eq!(context.put_snake(255, s), Err(GameError::InvalidId));
    assert_eq!(context.len(), 0);
}

#[test]
fn spawn_food_picks_a_cell_without_snake() {
    for seed in 0..50u64 {
        let mut context = GameContext::new(seed);
        context.put_snake(1, snake(&[(3, 3), (4, 3)], (5, 3), Direction::Right)).unwrap();
        assert_eq!(context.spawn_food(), Ok(()));
        let food = context.food();
        assert!(food.is_on_board());
        assert!(!cells_of(&context).contains(&food));
    }
}

#[test]
fn spawn_food_takes_the_only_vacant_cell() {
    let mut body = Vec::new();
    for y in 0..HEIGHT {
        for x in 0..WIDTH {
            if (x, y) != (5, 5) && (x, y) != (33, 44) {
                body.push(Point(x, y));
            }
        }
    }
    let big = Snake::new(body, Point(5, 5), Direction::Right).unwrap();
    let mut context = GameContext::new(11);
    context.put_snake(1, big).unwrap();
    assert_eq!(context.vacant_cells(), vec![Point(33, 44)]);
    assert_eq!(context.spawn_food(), Ok(()));
    assert_eq!(context.food(), Point(33, 44));
}

#[test]
fn spawn_food_on_full_board_reports_no_space() {
    let mut context = GameContext::new(3);
    context.put_snake(1, full_board_snake()).unwrap();
    assert!(context.vacant_cells().is_empty());
    assert_eq!(context.spawn_food(), Err(GameError::NoSpace));
    assert_eq!(context.food(), Point(10, 4));
}

#[test]
fn food_stays_when_eater_leaves_no_vacant_cell() {
    let mut body = Vec::new();
    for y in 0..HEIGHT {
        for x in 0..WIDTH {
            if (x, y) != (5, 5) && (x, y) != (6, 5) {
                body.push(Point(x, y));
            }
        }
    }
    let big = Snake::new(body, Point(5, 5), Direction::Right).unwrap();
    let mut context = GameContext::new(3);
    context.put_snake(1, big).unwrap();
    context.place_food(Point(6, 5)).unwrap();
    let (eater, killed) = context.update();
    assert_eq!(eater, Some(1));
    assert_eq!(killed, None);
    assert_eq!(context.snake(1).unwrap().body().len(), 4799);
    assert_eq!(context.food(), Point(6, 5));
}

#[test]
fn vacant_cells_are_listed_row_by_row() {
    let context = world(vec![(1, snake(&[(0, 0)], (1, 0), Direction::Right))], (10, 4));
    let cells = context.vacant_cells();
    assert_eq!(cells.len(), 4798);
    assert_eq!(cells[0], Point(2, 0));
    assert_eq!(cells[77], Point(79, 0));
    assert_eq!(cells[78], Point(0, 1));
    assert_eq!(cells[4797], Point(79, 59));
    let heads = context.spawn_cells();
    assert_eq!(heads[0], Point(3, 0));
    assert!(!heads.contains(&Point(0, 0)));
    assert!(!heads.contains(&Point(10, 4)));
    assert!(!heads.contains(&Point(11, 4)));
    assert!(heads.contains(&Point(12, 4)));
    assert_eq!(heads.len(), 4800 - 3 - 2);
}

#[test]
fn is_free_excludes_food_and_snakes() {
    let context = world(vec![(1, snake(&[(4, 5)], (5, 5), Direction::Right))], (6, 5));
    assert!(!context.is_free(Point(4, 5)));
    assert!(!context.is_free(Point(5, 5)));
    assert!(!context.is_free(Point(6, 5)));
    assert!(context.is_free(Point(7, 5)));
    assert!(!context.is_free(Point(-1, 5)));
    assert!(!context.is_free(Point(7, 60)));
    assert!(!context.is_occupied(Point(6, 5)));
    assert!(context.is_occupied(Point(4, 5)));
}

#[test]
fn move_snakes_reports_greatest_eater() {
    let mut context = world(
        vec![
            (7, snake(&[(8, 10)], (9, 10), Direction::Right)),
            (5, snake(&[(12, 10)], (11, 10), Direction::Left)),
            (9, snake(&[(20, 20)], (21, 20), Direction::Right)),
        ],
        (10, 10),
    );
    assert_eq!(context.move_snakes(), Some(7));
    assert_eq!(context.food(), Point(10, 10));
    assert_eq!(context.collisions(), vec![5, 7]);
    assert_eq!(context.snake(9).unwrap().body(), vec![Point(21, 20)]);
}

#[test]
fn same_seed_gives_same_game() {
    let mut a = GameContext::new(99);
    let mut b = GameContext::new(99);
    for id in 1..=8u8 {
        a.spawn_snake(id).unwrap();
        b.spawn_snake(id).unwrap();
        assert_eq!(a.snake(id).unwrap().head(), b.snake(id).unwrap().head());
    }
}
