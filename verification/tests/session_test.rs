use snake_multiplayer::frame::{Cell, Frame, FrameError, HeadRecord, SnakeRecord};
use snake_multiplayer::client::session::direction_update;
use snake_multiplayer::packet::{body_length, PacketType};
use snake_multiplayer::server::game::{GameContext, GameError, Snake};
use snake_multiplayer::server::session::{
    accept, broadcast_snake, cell, client_read, conn_rejected, disconnect_client, food_update,
    head_update, join, record, send_fullstate, snake_disconnect, tick, Admission, Registry,
    SessionError, MAX_PLAYERS, PORT, TICK_MILLIS,
};
use snake_multiplayer::util::{Direction, Point, HEIGHT, WIDTH};

fn snake(body: &[(i32, i32)], head: (i32, i32), direction: Direction) -> Snake {
    let body: Vec<Point> = body.iter().map(|&(x, y)| Point(x, y)).collect();
    Snake::new(body, Point(head.0, head.1), direction).unwrap()
}

fn decode(frame: &[u8]) -> Frame {
    assert_eq!(body_length(frame[0], frame[1]), frame.len() - 2);
    Frame::decode(&frame[2..]).unwrap()
}

#[test]
fn defaults_of_a_server() {
    assert_eq!(MAX_PLAYERS, 8);
    assert_eq!(PORT, 14300);
    assert_eq!(TICK_MILLIS, 50);
}

#[test]
fn rejection_frame_is_three_literal_bytes() {
    assert_eq!(conn_rejected(), vec![0x01, 0x00, 0x07]);
}

#[test]
fn body_length_is_little_endian() {
    assert_eq!(body_length(0, 0), 0);
    assert_eq!(body_length(1, 0), 1);
    assert_eq!(body_length(0x34, 0x12), 0x1234);
    assert_eq!(body_length(0xFF, 0xFF), 65535);
}

#[test]
fn registry_hands_out_lowest_unused_id() {
    let mut clients: Registry<u32> = Registry::new(MAX_PLAYERS);
    assert_eq!(clients.lowest_unused(), Some(1));
    assert_eq!(accept(&clients), Admission::Admitted(1));
    assert_eq!(clients.insert(1, 100), Ok(None));
    assert_eq!(clients.insert(2, 200), Ok(None));
    assert_eq!(clients.insert(4, 400), Ok(None));
    assert_eq!(accept(&clients), Admission::Admitted(3));
    assert_eq!(clients.remove(1), Some(100));
    assert_eq!(accept(&clients), Admission::Admitted(1));
    assert_eq!(clients.ids(), vec![2, 4]);
    assert_eq!(clients.others(2), vec![4]);
    assert_eq!(clients.others(4), vec![2]);
    assert_eq!(clients.others(9), vec![2, 4]);
    assert_eq!(clients.len(), 2);
    assert!(clients.contains(2));
    assert!(!clients.contains(1));
    assert_eq!(clients.get(4), Some(&400));
    assert_eq!(clients.get(5), None);
}

#[test]
fn registry_rejects_at_capacity() {
    let mut clients: Registry<u8> = Registry::new(MAX_PLAYERS);
    for id in 1..=7u8 {
        assert_eq!(accept(&clients), Admission::Admitted(id));
        clients.insert(id, id).unwrap();
    }
    assert_eq!(accept(&clients), Admission::Admitted(8));
    clients.insert(8, 8).unwrap();
    assert_eq!(accept(&clients), Admission::Rejected);
    clients.remove(3);
    assert_eq!(accept(&clients), Admission::Admitted(3));
}

#[test]
fn registry_with_no_room_rejects_at_once() {
    let clients: Registry<u8> = Registry::new(0);
    assert_eq!(accept(&clients), Admission::Rejected);
}

#[test]
fn registry_rejects_when_every_id_is_used() {
    let mut clients: Registry<u8> = Registry::new(1000);
    for id in 1..=254u8 {
        assert_eq!(accept(&clients), Admission::Admitted(id));
        clients.insert(id, 0).unwrap();
    }
    assert_eq!(clients.lowest_unused(), None);
    assert_eq!(accept(&clients), Admission::Rejected);
    clients.remove(254);
    assert_eq!(accept(&clients), Admission::Admitted(254));
}

#[test]
fn registry_refuses_ids_outside_range() {
    let mut clients: Registry<&str> = Registry::new(MAX_PLAYERS);
    assert_eq!(clients.insert(0, "a"), Err("a"));
    assert_eq!(clients.insert(255, "b"), Err("b"));
    assert_eq!(clients.len(), 0);
    assert_eq!(clients.insert(254, "c"), Ok(None));
    assert_eq!(clients.insert(254, "d"), Ok(Some("c")));
    assert_eq!(clients.remove(254), Some("d"));
    assert_eq!(clients.remove(254), None);
}

#[test]
fn join_spawns_then_announces_then_informs() {
    let mut context = GameContext::new(5);
    context.put_snake(1, snake(&[(3, 3), (4, 3)], (5, 3), Direction::Right)).unwrap();
    let welcome = join(&mut context, 2).unwrap();
    let spawned = context.snake(2).unwrap();
    let (hx, hy) = (spawned.head().0 as u8, spawned.head().1 as u8);
    let tail = spawned.body()[0];
    let (tx, ty) = (tail.0 as u8, tail.1 as u8);

    assert_eq!(welcome.announce, vec![8, 0, 0x5, 2, 2, 0, tx, ty, hx, hy]);
    assert_eq!(
        welcome.info,
        vec![
            21, 0, 0x1, 2, // length, type, own id
            1, 3, 0, 3, 3, 4, 3, 5, 3, // snake 1
            2, 2, 0, tx, ty, hx, hy, // snake 2
            0xFF, 10, 4, // terminator, food
        ]
    );
    assert_eq!(
        decode(&welcome.announce),
        Frame::SnakeConnect {
            snake: SnakeRecord {
                id: 2,
                body: vec![Cell { x: tx, y: ty }],
                head: Cell { x: hx, y: hy }
            }
        }
    );
}

#[test]
fn join_fails_without_changing_the_world() {
    let mut context = GameContext::new(5);
    assert!(matches!(join(&mut context, 0), Err(SessionError::Game(GameError::InvalidId))));
    assert!(matches!(join(&mut context, 255), Err(SessionError::Game(GameError::InvalidId))));
    assert_eq!(context.len(), 0);

    let mut body = Vec::new();
    for y in 0..HEIGHT {
        for x in 0..WIDTH {
            if (x, y) != (5, 5) {
                body.push(Point(x, y));
            }
        }
    }
    context.put_snake(1, Snake::new(body, Point(5, 5), Direction::Right).unwrap()).unwrap();
    assert!(matches!(join(&mut context, 2), Err(SessionError::Game(GameError::NoSpace))));
    assert_eq!(context.snake_ids(), vec![1]);
}

#[test]
fn join_undoes_the_spawn_when_the_world_is_too_large() {
    let mut context = GameContext::new(5);
    let body = vec![Point(1, 1); 40000];
    context.put_snake(1, Snake::new(body, Point(2, 2), Direction::Right).unwrap()).unwrap();
    assert_eq!(send_fullstate(1, &context), Err(FrameError::Unencodable));
    assert!(matches!(
        join(&mut context, 2),
        Err(SessionError::Frame(FrameError::Unencodable))
    ));
    assert_eq!(context.snake_ids(), vec![1]);
}

#[test]
fn fullstate_lists_snakes_by_ascending_id() {
    let mut context = GameContext::new(5);
    context.put_snake(9, snake(&[(1, 1)], (2, 1), Direction::Right)).unwrap();
    context.put_snake(3, snake(&[(1, 2)], (2, 2), Direction::Left)).unwrap();
    context.put_snake(200, snake(&[(79, 59)], (0, 0), Direction::Up)).unwrap();
    let bytes = send_fullstate(3, &context).unwrap();
    let cell = |x, y| Cell { x, y };
    assert_eq!(
        decode(&bytes),
        Frame::Info {
            own_id: 3,
            snakes: vec![
                SnakeRecord { id: 3, body: vec![cell(1, 2)], head: cell(2, 2) },
                SnakeRecord { id: 9, body: vec![cell(1, 1)], head: cell(2, 1) },
                SnakeRecord { id: 200, body: vec![cell(79, 59)], head: cell(0, 0) },
            ],
            food: cell(10, 4),
        }
    );
}

#[test]
fn fullstate_of_empty_world() {
    let context = GameContext::new(5);
    assert_eq!(send_fullstate(1, &context).unwrap(), vec![5, 0, 0x1, 1, 0xFF, 10, 4]);
}

#[test]
fn broadcast_snake_writes_count_body_head() {
    let s = snake(&[(3, 3), (4, 3)], (5, 3), Direction::Right);
    assert_eq!(broadcast_snake(7, &s).unwrap(), vec![10, 0, 0x5, 7, 3, 0, 3, 3, 4, 3, 5, 3]);
    let long = Snake::new(vec![Point(1, 1); 40000], Point(2, 2), Direction::Up).unwrap();
    assert_eq!(broadcast_snake(7, &long), Err(FrameError::Unencodable));
}

#[test]
fn record_and_cell_convert_coordinates() {
    assert_eq!(cell(Point(79, 59)), Cell { x: 79, y: 59 });
    let r = record(4, &snake(&[(0, 0), (79, 0)], (79, 59), Direction::Up));
    assert_eq!(
        r,
        SnakeRecord {
            id: 4,
            body: vec![Cell { x: 0, y: 0 }, Cell { x: 79, y: 0 }],
            head: Cell { x: 79, y: 59 }
        }
    );
}

#[test]
fn head_update_lists_every_snake() {
    let mut context = GameContext::new(5);
    assert_eq!(head_update(&context), vec![1, 0, 0x4]);
    context.put_snake(9, snake(&[(1, 1)], (2, 1), Direction::Right)).unwrap();
    context.put_snake(3, snake(&[(1, 2)], (79, 59), Direction::Left)).unwrap();
    assert_eq!(head_update(&context), vec![7, 0, 0x4, 3, 79, 59, 9, 2, 1]);
}

#[test]
fn food_update_names_eater_and_food() {
    let mut context = GameContext::new(5);
    assert_eq!(food_update(&context, 6), vec![4, 0, 0x2, 6, 10, 4]);
    context.place_food(Point(79, 59)).unwrap();
    assert_eq!(food_update(&context, 254), vec![4, 0, 0x2, 254, 79, 59]);
}

#[test]
fn small_frames_have_fixed_bytes() {
    assert_eq!(snake_disconnect(9), vec![2, 0, 0x6, 9]);
    assert_eq!(direction_update(Direction::Up), vec![2, 0, 0x3, 1]);
    assert_eq!(direction_update(Direction::Down), vec![2, 0, 0x3, 2]);
    assert_eq!(direction_update(Direction::Left), vec![2, 0, 0x3, 3]);
    assert_eq!(direction_update(Direction::Right), vec![2, 0, 0x3, 4]);
}

#[test]
fn client_read_applies_direction_update() {
    let mut context = GameContext::new(5);
    context.put_snake(3, snake(&[(1, 2)], (2, 2), Direction::Right)).unwrap();
    assert_eq!(client_read(&mut context, 3, &[0x3, 1]), Ok(Direction::Up));
    assert_eq!(context.snake(3).unwrap().direction(), Direction::Up);
    assert_eq!(client_read(&mut context, 3, &[0x3, 2]), Ok(Direction::Down));
    assert_eq!(context.snake(3).unwrap().direction(), Direction::Down);
    assert_eq!(client_read(&mut context, 3, &[0x3, 3]), Ok(Direction::Left));
    assert_eq!(client_read(&mut context, 3, &[0x3, 4]), Ok(Direction::Right));
    assert_eq!(context.snake(3).unwrap().direction(), Direction::Right);
}

#[test]
fn client_read_ignores_everything_else() {
    let mut context = GameContext::new(5);
    context.put_snake(3, snake(&[(1, 2)], (2, 2), Direction::Right)).unwrap();
    assert_eq!(
        client_read(&mut context, 3, &[]),
        Err(SessionError::Frame(FrameError::Empty))
    );
    assert_eq!(
        client_read(&mut context, 3, &[0x9, 1]),
        Err(SessionError::Frame(FrameError::UnknownType(9)))
    );
    assert_eq!(
        client_read(&mut context, 3, &[0x3, 9]),
        Err(SessionError::Frame(FrameError::Malformed))
    );
    assert_eq!(
        client_read(&mut context, 3, &[0x6, 3]),
        Err(SessionError::UnexpectedType(PacketType::SnakeDisconnect))
    );
    assert_eq!(
        client_read(&mut context, 3, &[0x7]),
        Err(SessionError::UnexpectedType(PacketType::ConnRejected))
    );
    assert_eq!(client_read(&mut context, 4, &[0x3, 1]), Err(SessionError::UnknownSnake(4)));
    assert_eq!(context.snake(3).unwrap().direction(), Direction::Right);
    assert_eq!(context.snake_ids(), vec![3]);
}

#[test]
fn disconnect_removes_client_and_snake() {
    let mut context = GameContext::new(5);
    let mut clients: Registry<&str> = Registry::new(MAX_PLAYERS);
    context.put_snake(3, snake(&[(1, 2)], (2, 2), Direction::Right)).unwrap();
    context.put_snake(4, snake(&[(1, 3)], (2, 3), Direction::Right)).unwrap();
    clients.insert(3, "three").unwrap();
    clients.insert(4, "four").unwrap();

    let (handle, frame) = disconnect_client(3, &mut context, &mut clients);
    assert_eq!(handle, Some("three"));
    assert_eq!(frame, vec![2, 0, 0x6, 3]);
    assert_eq!(context.snake_ids(), vec![4]);
    assert_eq!(clients.ids(), vec![4]);

    let (handle, frame) = disconnect_client(3, &mut context, &mut clients);
    assert_eq!(handle, None);
    assert_eq!(frame, vec![2, 0, 0x6, 3]);
    assert_eq!(context.snake_ids(), vec![4]);
    assert_eq!(clients.ids(), vec![4]);
}

#[test]
fn tick_reports_and_frames_a_meal() {
    let mut context = GameContext::new(5);
    context.put_snake(1, snake(&[(4, 5)], (5, 5), Direction::Right)).unwrap();
    context.place_food(Point(6, 5)).unwrap();
    let t = tick(&mut context);
    assert_eq!(t.eater, Some(1));
    assert_eq!(t.killed, None);
    let food = context.food();
    assert_eq!(t.food_update, Some(vec![4, 0, 0x2, 1, food.0 as u8, food.1 as u8]));
    assert_eq!(t.head_update, vec![4, 0, 0x4, 1, 6, 5]);
    assert_eq!(
        decode(&t.head_update),
        Frame::HeadUpdate { heads: vec![HeadRecord { id: 1, head: Cell { x: 6, y: 5 } }] }
    );
}

#[test]
fn tick_reports_the_killed_and_still_lists_them() {
    let mut context = GameContext::new(5);
    context.put_snake(1, snake(&[(8, 10)], (9, 10), Direction::Right)).unwrap();
    context.put_snake(2, snake(&[(12, 10)], (11, 10), Direction::Left)).unwrap();
    context.put_snake(3, snake(&[(20, 20)], (20, 21), Direction::Down)).unwrap();
    context.place_food(Point(40, 40)).unwrap();
    let t = tick(&mut context);
    assert_eq!(t.eater, None);
    assert_eq!(t.killed, Some(vec![1, 2]));
    assert_eq!(t.food_update, None);
    assert_eq!(t.head_update, vec![10, 0, 0x4, 1, 10, 10, 2, 10, 10, 3, 20, 22]);
}

#[test]
fn tick_of_empty_world_sends_empty_head_update() {
    let mut context = GameContext::new(5);
    let t = tick(&mut context);
    assert_eq!(t.eater, None);
    assert_eq!(t.killed, None);
    assert_eq!(t.food_update, None);
    assert_eq!(t.head_update, vec![1, 0, 0x4]);
}
