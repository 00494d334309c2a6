use snake_multiplayer::client::game::{GameContext, Snake, State};
use snake_multiplayer::client::session::{
    apply_frame, point, process_packet, read_packets, read_snake, turn, ClientError, ADDR,
};
use snake_multiplayer::frame::{Cell, Frame, FrameError, HeadRecord, SnakeRecord};
use snake_multiplayer::packet::{PacketType, ReadablePacket};
use snake_multiplayer::server::game::GameContext as ServerContext;
use snake_multiplayer::server::session::{join, tick};
use snake_multiplayer::util::{Direction, Point};
use std::collections::VecDeque;

fn cell(x: u8, y: u8) -> Cell {
    Cell { x, y }
}

fn record(id: u8, body: &[(u8, u8)], head: (u8, u8)) -> SnakeRecord {
    SnakeRecord {
        id,
        body: body.iter().map(|&(x, y)| cell(x, y)).collect(),
        head: cell(head.0, head.1),
    }
}

fn body_of(s: &Snake) -> Vec<Point> {
    s.body.iter().copied().collect()
}

fn playing() -> GameContext {
    let mut context = GameContext::new();
    let info = Frame::Info {
        own_id: 2,
        snakes: vec![record(1, &[(3, 3), (4, 3)], (5, 3)), record(2, &[(9, 9)], (10, 9))],
        food: cell(10, 4),
    };
    assert_eq!(apply_frame(&mut context, &info), Ok(()));
    context
}

#[test]
fn default_server_address() {
    assert_eq!(ADDR, "127.0.0.1:14300");
}

#[test]
fn new_copy_is_joining_and_empty() {
    let context = GameContext::new();
    assert_eq!(context.snake_id, 0);
    assert!(context.snakes.is_empty());
    assert_eq!(context.food, Point(0, 0));
    assert!(context.state == State::Joining);
}

#[test]
fn snake_new_remembers_first_body_cell() {
    let body: VecDeque<Point> = vec![Point(1, 2), Point(2, 2)].into();
    let s = Snake::new(body, Point(3, 2));
    assert_eq!(s.old_tail, Point(1, 2));
    assert_eq!(s.head, Point(3, 2));
    assert_eq!(body_of(&s), vec![Point(1, 2), Point(2, 2)]);
}

#[test]
fn read_snake_converts_a_record() {
    let s = read_snake(&record(7, &[(255, 0), (0, 255)], (79, 59)));
    assert_eq!(body_of(&s), vec![Point(255, 0), Point(0, 255)]);
    assert_eq!(s.head, Point(79, 59));
    assert_eq!(s.old_tail, Point(255, 0));
    assert_eq!(point(cell(12, 34)), Point(12, 34));
}

#[test]
fn info_starts_play() {
    let context = playing();
    assert_eq!(context.snake_id, 2);
    assert!(context.state == State::Playing);
    assert_eq!(context.food, Point(10, 4));
    assert_eq!(context.snakes.len(), 2);
    assert_eq!(context.snakes[&1].head, Point(5, 3));
    assert_eq!(body_of(&context.snakes[&1]), vec![Point(3, 3), Point(4, 3)]);
    assert_eq!(context.snakes[&1].old_tail, Point(3, 3));
    assert_eq!(context.snakes[&2].head, Point(10, 9));
}

#[test]
fn info_with_repeated_id_keeps_the_last() {
    let mut context = GameContext::new();
    let info = Frame::Info {
        own_id: 1,
        snakes: vec![record(1, &[(3, 3)], (5, 3)), record(1, &[(9, 9)], (10, 9))],
        food: cell(1, 1),
    };
    assert_eq!(apply_frame(&mut context, &info), Ok(()));
    assert_eq!(context.snakes.len(), 1);
    assert_eq!(context.snakes[&1].head, Point(10, 9));
}

#[test]
fn head_update_moves_and_remembers_tail() {
    let mut context = playing();
    let frame = Frame::HeadUpdate {
        heads: vec![
            HeadRecord { id: 1, head: cell(6, 3) },
            HeadRecord { id: 2, head: cell(11, 9) },
        ],
    };
    assert_eq!(apply_frame(&mut context, &frame), Ok(()));
    assert_eq!(context.snakes[&1].head, Point(6, 3));
    assert_eq!(body_of(&context.snakes[&1]), vec![Point(4, 3), Point(5, 3)]);
    assert_eq!(context.snakes[&1].old_tail, Point(3, 3));
    assert_eq!(context.snakes[&2].head, Point(11, 9));
    assert_eq!(body_of(&context.snakes[&2]), vec![Point(10, 9)]);
    assert_eq!(context.snakes[&2].old_tail, Point(9, 9));
}

#[test]
fn head_update_naming_a_snake_twice_moves_it_twice() {
    let mut context = playing();
    let frame = Frame::HeadUpdate {
        heads: vec![
            HeadRecord { id: 1, head: cell(6, 3) },
            HeadRecord { id: 1, head: cell(7, 3) },
        ],
    };
    assert_eq!(apply_frame(&mut context, &frame), Ok(()));
    assert_eq!(context.snakes[&1].head, Point(7, 3));
    assert_eq!(body_of(&context.snakes[&1]), vec![Point(5, 3), Point(6, 3)]);
    assert_eq!(context.snakes[&1].old_tail, Point(4, 3));
}

#[test]
fn head_update_with_unknown_snake_changes_nothing() {
    let mut context = playing();
    let frame = Frame::HeadUpdate {
        heads: vec![
            HeadRecord { id: 1, head: cell(6, 3) },
            HeadRecord { id: 8, head: cell(1, 1) },
            HeadRecord { id: 9, head: cell(1, 1) },
        ],
    };
    assert_eq!(apply_frame(&mut context, &frame), Err(ClientError::UnknownSnake(8)));
    assert_eq!(context.snakes[&1].head, Point(5, 3));
    assert_eq!(body_of(&context.snakes[&1]), vec![Point(3, 3), Point(4, 3)]);
}

#[test]
fn food_update_grows_the_eater_after_its_move() {
    let mut context = playing();
    let moved = Frame::HeadUpdate { heads: vec![HeadRecord { id: 1, head: cell(6, 3) }] };
    assert_eq!(apply_frame(&mut context, &moved), Ok(()));
    let ate = Frame::FoodUpdate { eater: 1, food: cell(20, 20) };
    assert_eq!(apply_frame(&mut context, &ate), Ok(()));
    assert_eq!(body_of(&context.snakes[&1]), vec![Point(3, 3), Point(4, 3), Point(5, 3)]);
    assert_eq!(context.snakes[&1].head, Point(6, 3));
    assert_eq!(context.food, Point(20, 20));
}

#[test]
fn food_update_for_unknown_snake_changes_nothing() {
    let mut context = playing();
    let ate = Frame::FoodUpdate { eater: 7, food: cell(20, 20) };
    assert_eq!(apply_frame(&mut context, &ate), Err(ClientError::UnknownSnake(7)));
    assert_eq!(context.food, Point(10, 4));
    assert_eq!(context.snakes.len(), 2);
}

#[test]
fn snake_connect_and_disconnect() {
    let mut context = playing();
    let joined = Frame::SnakeConnect { snake: record(5, &[(1, 1)], (2, 1)) };
    assert_eq!(apply_frame(&mut context, &joined), Ok(()));
    assert_eq!(context.snakes.len(), 3);
    assert_eq!(context.snakes[&5].head, Point(2, 1));
    assert_eq!(context.snakes[&5].old_tail, Point(1, 1));
    assert_eq!(apply_frame(&mut context, &Frame::SnakeDisconnect { id: 5 }), Ok(()));
    assert_eq!(context.snakes.len(), 2);
    assert!(!context.snakes.contains_key(&5));
    assert_eq!(apply_frame(&mut context, &Frame::SnakeDisconnect { id: 5 }), Ok(()));
    assert_eq!(context.snakes.len(), 2);
}

#[test]
fn snake_without_body_does_not_apply() {
    let mut context = playing();
    let joined = Frame::SnakeConnect { snake: record(5, &[], (2, 1)) };
    assert_eq!(
        apply_frame(&mut context, &joined),
        Err(ClientError::Frame(FrameError::Malformed))
    );
    let info = Frame::Info {
        own_id: 9,
        snakes: vec![record(6, &[(1, 1)], (2, 1)), record(5, &[], (2, 1))],
        food: cell(1, 1),
    };
    assert_eq!(apply_frame(&mut context, &info), Err(ClientError::Frame(FrameError::Malformed)));
    assert_eq!(context.snakes.len(), 2);
    assert_eq!(context.snake_id, 2);
    assert_eq!(context.food, Point(10, 4));
}

#[test]
fn frames_not_meant_for_a_client_do_not_apply() {
    let mut context = playing();
    assert_eq!(
        apply_frame(&mut context, &Frame::DirectionUpdate { direction: Direction::Up }),
        Err(ClientError::UnexpectedType(PacketType::DirectionUpdate))
    );
    assert_eq!(
        apply_frame(&mut context, &Frame::ConnRejected),
        Err(ClientError::UnexpectedType(PacketType::ConnRejected))
    );
}

#[test]
fn process_packet_reads_and_applies() {
    let mut context = playing();
    let mut packet = ReadablePacket::from_bytes(&[0x4, 1, 6, 3]).unwrap();
    assert_eq!(process_packet(&mut packet, &mut context), Ok(()));
    assert_eq!(context.snakes[&1].head, Point(6, 3));

    let mut packet = ReadablePacket::from_bytes(&[0x4, 1, 6]).unwrap();
    assert_eq!(
        process_packet(&mut packet, &mut context),
        Err(ClientError::Frame(FrameError::Malformed))
    );
    assert_eq!(context.snakes[&1].head, Point(6, 3));
}

#[test]
fn read_packets_stops_on_rejection_and_empty_body() {
    let mut context = GameContext::new();
    assert!(!read_packets(&[0x7], &mut context));
    assert!(!read_packets(&[], &mut context));
    assert!(context.state == State::Joining);
}

#[test]
fn read_packets_goes_on_after_any_other_body() {
    let mut context = GameContext::new();
    assert!(read_packets(&[0x1, 2, 1, 2, 0, 3, 3, 4, 3, 0xFF, 10, 4], &mut context));
    assert!(context.state == State::Playing);
    assert_eq!(context.snake_id, 2);
    assert_eq!(context.snakes[&1].head, Point(4, 3));
    assert!(read_packets(&[0x9, 1], &mut context));
    assert!(read_packets(&[0x4, 1], &mut context));
    assert!(read_packets(&[0x4, 77, 1, 1], &mut context));
    assert!(read_packets(&[0x3, 1], &mut context));
    assert!(read_packets(&[0x7, 0], &mut context));
    assert_eq!(context.snakes.len(), 1);
    assert_eq!(context.snakes[&1].head, Point(4, 3));
}

#[test]
fn turn_is_sent_only_for_a_real_change() {
    let all = [Direction::Up, Direction::Down, Direction::Left, Direction::Right];
    for current in all {
        for wanted in all {
            let sent = turn(current, wanted);
            if wanted == current || wanted == current.opposite() {
                assert_eq!(sent, None);
            } else {
                assert_eq!(sent, Some((wanted, vec![2, 0, 0x3, wanted.code()])));
            }
        }
    }
    assert_eq!(turn(Direction::Right, Direction::Left), None);
    assert_eq!(turn(Direction::Right, Direction::Up), Some((Direction::Up, vec![2, 0, 3, 1])));
}

#[test]
fn client_mirrors_the_server() {
    let mut server = ServerContext::new(21);
    let mut client = GameContext::new();
    let welcome = join(&mut server, 1).unwrap();
    assert!(read_packets(&welcome.info[2..], &mut client));
    let other = join(&mut server, 2).unwrap();
    assert!(read_packets(&other.announce[2..], &mut client));
    assert_eq!(client.snakes.len(), 2);

    for _ in 0..200 {
        let t = tick(&mut server);
        assert!(read_packets(&t.head_update[2..], &mut client));
        if let Some(frame) = &t.food_update {
            assert!(read_packets(&frame[2..], &mut client));
        }
        assert_eq!(client.food, server.food());
        for id in server.snake_ids() {
            let theirs = server.snake(id).unwrap();
            let ours = &client.snakes[&id];
            assert_eq!(ours.head, theirs.head());
            assert_eq!(body_of(ours), theirs.body());
        }
    }
}
