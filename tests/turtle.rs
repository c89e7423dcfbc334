use actionkv::turtle::{convert, parse, parse_byte, Artist, Operation, Orientation, HOME_X, HOME_Y};

#[test]
fn parse_byte_digits() {
    assert_eq!(parse_byte(b'0'), Operation::Home);
    assert_eq!(parse_byte(b'1'), Operation::Forward(40));
    assert_eq!(parse_byte(b'9'), Operation::Forward(360));
    assert_eq!(parse_byte(b'a'), Operation::TurnLeft);
    assert_eq!(parse_byte(b'c'), Operation::TurnLeft);
    assert_eq!(parse_byte(b'd'), Operation::TurnRight);
    assert_eq!(parse_byte(b'f'), Operation::TurnRight);
    assert_eq!(parse_byte(b'g'), Operation::Noop(b'g'));
    assert_eq!(parse_byte(b'A'), Operation::Noop(b'A'));
}

#[test]
fn parse_keeps_order() {
    assert_eq!(
        parse("0a5z"),
        vec![Operation::Home, Operation::TurnLeft, Operation::Forward(200), Operation::Noop(b'z')]
    );
    assert!(parse("").is_empty());
}

#[test]
fn artist_moves_and_turns() {
    let mut a = Artist::new();
    assert_eq!((a.x, a.y, a.heading), (HOME_X, HOME_Y, Orientation::North));
    a.forward(40);
    assert_eq!((a.x, a.y), (200, 240));
    a.turn_right();
    assert_eq!(a.heading, Orientation::East);
    a.forward(40);
    assert_eq!((a.x, a.y), (160, 240));
    a.turn_right();
    assert_eq!(a.heading, Orientation::South);
    a.turn_right();
    assert_eq!(a.heading, Orientation::West);
    a.forward(10);
    assert_eq!((a.x, a.y), (170, 240));
    a.turn_left();
    assert_eq!(a.heading, Orientation::South);
    a.turn_left();
    assert_eq!(a.heading, Orientation::East);
    a.turn_left();
    assert_eq!(a.heading, Orientation::North);
    a.turn_left();
    assert_eq!(a.heading, Orientation::West);
    a.home();
    assert_eq!((a.x, a.y, a.heading), (HOME_X, HOME_Y, Orientation::West));
}

#[test]
fn wrap_returns_home_and_turns() {
    let mut a = Artist { x: -1, y: 10, heading: Orientation::North };
    a.wrap();
    assert_eq!((a.x, a.y, a.heading), (HOME_X, 10, Orientation::West));
    let mut a = Artist { x: 401, y: 10, heading: Orientation::North };
    a.wrap();
    assert_eq!((a.x, a.y, a.heading), (HOME_X, 10, Orientation::East));
    let mut a = Artist { x: 5, y: -3, heading: Orientation::East };
    a.wrap();
    assert_eq!((a.x, a.y, a.heading), (5, HOME_Y, Orientation::North));
    let mut a = Artist { x: 500, y: 401, heading: Orientation::East };
    a.wrap();
    assert_eq!((a.x, a.y, a.heading), (HOME_X, HOME_Y, Orientation::South));
    let mut a = Artist { x: 400, y: 0, heading: Orientation::East };
    a.wrap();
    assert_eq!((a.x, a.y, a.heading), (400, 0, Orientation::East));
}

#[test]
fn convert_traces_points() {
    let ops = parse("9d0b6");
    let points = convert(&ops);
    assert_eq!(
        points,
        vec![(200, 200), (200, 560), (200, 200), (200, 200), (200, 200), (200, -40)]
    );
}

#[test]
fn convert_empty() {
    assert_eq!(convert(&Vec::new()), vec![(HOME_X, HOME_Y)]);
}
