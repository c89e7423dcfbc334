//! A pen that turns hexadecimal digits into a path on a square canvas.

use vstd::prelude::*;
use vstd::string::StringSliceAdditionalSpecFns;

verus! {

/// Width of the canvas.
pub const WIDTH: isize = 400;

/// Height of the canvas.
pub const HEIGHT: isize = WIDTH;

/// Horizontal coordinate of the pen's home: half the height.
pub const HOME_X: isize = 200;

/// Vertical coordinate of the pen's home: half the width.
pub const HOME_Y: isize = 200;

/// Distance moved per unit of a digit: a tenth of the height.
pub const UNIT: isize = 40;

/// Width of the drawn stroke.
pub const STROKE_WIDTH: usize = 5;

/// Where the pen is heading.
#[derive(Debug, Clone, Copy, PartialEq, Eq, Structural)]
pub enum Orientation {
    North,
    East,
    West,
    South,
}

/// One instruction for the pen.
#[derive(Debug, Clone, Copy, PartialEq, Eq, Structural)]
pub enum Operation {
    /// Move ahead by the given distance.
    Forward(isize),
    TurnLeft,
    TurnRight,
    /// Go back to the home position.
    Home,
    /// An input byte that is no instruction.
    Noop(u8),
}

/// The pen: a position and a heading.
#[derive(Debug, Clone, Copy, PartialEq, Eq, Structural)]
pub struct Artist {
    pub x: isize,
    pub y: isize,
    pub heading: Orientation,
}

/// The pen at home, heading north.
pub open spec fn home_artist() -> Artist {
    Artist { x: HOME_X, y: HOME_Y, heading: Orientation::North }
}

/// Whether moving `a` ahead by `distance` keeps its coordinates in range.
pub open spec fn can_move(a: Artist, distance: isize) -> bool {
    match a.heading {
        Orientation::North => isize::MIN <= a.y + distance <= isize::MAX,
        Orientation::South => isize::MIN <= a.y - distance <= isize::MAX,
        Orientation::West => isize::MIN <= a.x + distance <= isize::MAX,
        Orientation::East => isize::MIN <= a.x - distance <= isize::MAX,
    }
}

/// `a` moved ahead by `distance`.
pub open spec fn moved(a: Artist, distance: isize) -> Artist {
    match a.heading {
        Orientation::North => Artist { y: (a.y + distance) as isize, ..a },
        Orientation::South => Artist { y: (a.y - distance) as isize, ..a },
        Orientation::West => Artist { x: (a.x + distance) as isize, ..a },
        Orientation::East => Artist { x: (a.x - distance) as isize, ..a },
    }
}

/// The heading after a right turn.
pub open spec fn right_of(o: Orientation) -> Orientation {
    match o {
        Orientation::North => Orientation::East,
        Orientation::South => Orientation::West,
        Orientation::West => Orientation::North,
        Orientation::East => Orientation::South,
    }
}

/// The heading after a left turn.
pub open spec fn left_of(o: Orientation) -> Orientation {
    match o {
        Orientation::North => Orientation::West,
        Orientation::South => Orientation::East,
        Orientation::West => Orientation::South,
        Orientation::East => Orientation::North,
    }
}

/// `a` brought back inside the canvas: a coordinate past an edge goes back
/// home, and the heading turns away from that edge.
pub open spec fn wrapped(a: Artist) -> Artist {
    let a1 = if a.x < 0 {
        Artist { x: HOME_X, heading: Orientation::West, ..a }
    } else if a.x > WIDTH {
        Artist { x: HOME_X, heading: Orientation::East, ..a }
    } else {
        a
    };
    if a1.y < 0 {
        Artist { y: HOME_Y, heading: Orientation::North, ..a1 }
    } else if a1.y > HEIGHT {
        Artist { y: HOME_Y, heading: Orientation::South, ..a1 }
    } else {
        a1
    }
}

/// Whether the pen lies on the canvas.
pub open spec fn on_canvas(a: Artist) -> bool {
    0 <= a.x <= WIDTH && 0 <= a.y <= HEIGHT
}

impl Artist {
    /// The pen at home, heading north.
    pub fn new() -> (r: Artist)
        ensures
            r == home_artist(),
    {
        Artist { x: HOME_X, y: HOME_Y, heading: Orientation::North }
    }

    /// Moves the pen home; the heading is kept.
    pub fn home(&mut self)
        ensures
            *final(self) == (Artist { x: HOME_X, y: HOME_Y, heading: old(self).heading }),
    {
        self.x = HOME_X;
        self.y = HOME_Y;
    }

    /// Moves the pen ahead by `distance`: north and west grow a coordinate,
    /// south and east shrink it.
    pub fn forward(&mut self, distance: isize)
        requires
            can_move(*old(self), distance),
        ensures
            *final(self) == moved(*old(self), distance),
    {
        match self.heading {
            Orientation::North => self.y = self.y + distance,
            Orientation::South => self.y = self.y - distance,
            Orientation::West => self.x = self.x + distance,
            Orientation::East => self.x = self.x - distance,
        }
    }

    /// Turns the pen a quarter to the right.
    pub fn turn_right(&mut self)
        ensures
            *final(self) == (Artist { heading: right_of(old(self).heading), ..*old(self) }),
    {
        self.heading =
        match self.heading {
            Orientation::North => Orientation::East,
            Orientation::South => Orientation::West,
            Orientation::West => Orientation::North,
            Orientation::East => Orientation::South,
        };
    }

    /// Turns the pen a quarter to the left.
    pub fn turn_left(&mut self)
        ensures
            *final(self) == (Artist { heading: left_of(old(self).heading), ..*old(self) }),
    {
        self.heading =
        match self.heading {
            Orientation::North => Orientation::West,
            Orientation::South => Orientation::East,
            Orientation::West => Orientation::South,
            Orientation::East => Orientation::North,
        };
    }

    /// Keeps the drawing inside the canvas (see `wrapped`).
    pub fn wrap(&mut self)
        ensures
            *final(self) == wrapped(*old(self)),
            on_canvas(*final(self)),
    {
        if self.x < 0 {
            self.x = HOME_X;
            self.heading = Orientation::West;
        } else if self.x > WIDTH {
            self.x = HOME_X;
            self.heading = Orientation::East;
        }
        if self.y < 0 {
            self.y = HOME_Y;
            self.heading = Orientation::North;
        } else if self.y > HEIGHT {
            self.y = HOME_Y;
            self.heading = Orientation::South;
        }
    }
}

/// The instruction that a byte of hexadecimal text stands for.
pub open spec fn parse_byte_spec(byte: u8) -> Operation {
    if byte == 0x30 {
        Operation::Home
    } else if 0x31 <= byte <= 0x39 {
        Operation::Forward(((byte - 0x30) * UNIT) as isize)
    } else if 0x61 <= byte <= 0x63 {
        Operation::TurnLeft
    } else if 0x64 <= byte <= 0x66 {
        Operation::TurnRight
    } else {
        Operation::Noop(byte)
    }
}

/// Converts one hexadecimal digit to an instruction: `0` goes home, `1` to
/// `9` move ahead by a tenth of the canvas per unit, `a` to `c` turn left,
/// `d` to `f` turn right, and any other byte is kept as a no-op.
pub fn parse_byte(byte: u8) -> (r: Operation)
    ensures
        r == parse_byte_spec(byte),
{
    if byte == 0x30 {
        Operation::Home
    } else if 0x31 <= byte && byte <= 0x39 {
        let distance = (byte - 0x30) as isize;
        Operation::Forward(distance * UNIT)
    } else if 0x61 <= byte && byte <= 0x63 {
        Operation::TurnLeft
    } else if 0x64 <= byte && byte <= 0x66 {
        Operation::TurnRight
    } else {
        Operation::Noop(byte)
    }
}

/// Converts each byte of `input` to an instruction, in order.
pub fn parse(input: &str) -> (r: Vec<Operation>)
    ensures
        r@ == input.spec_bytes().map_values(|b: u8| parse_byte_spec(b)),
{
    let bytes = input.as_bytes();
    let mut ops: Vec<Operation> = Vec::new();
    let mut i: usize = 0;
    while i < bytes.len()
        invariant
            i <= bytes@.len(),
            bytes@ == input.spec_bytes(),
            ops@ == bytes@.subrange(0, i as int).map_values(|b: u8| parse_byte_spec(b)),
        decreases bytes@.len() - i,
    {
        ops.push(parse_byte(bytes[i]));
        i = i + 1;
        assert(bytes@.subrange(0, i as int).map_values(|b: u8| parse_byte_spec(b)) =~= bytes@.subrange(
            0,
            i - 1,
        ).map_values(|b: u8| parse_byte_spec(b)).push(parse_byte_spec(bytes@[i - 1])));
    }
    assert(bytes@.subrange(0, bytes@.len() as int) == bytes@);
    ops
}

/// Whether moving ahead by `distance` from anywhere on the canvas stays in range.
pub open spec fn safe_op(op: Operation) -> bool {
    match op {
        Operation::Forward(d) => -(isize::MAX - WIDTH) <= d <= isize::MAX - WIDTH,
        _ => true,
    }
}

/// The pen after carrying out `op`, before it is brought back to the canvas.
pub open spec fn applied(a: Artist, op: Operation) -> Artist {
    match op {
        Operation::Forward(d) => moved(a, d),
        Operation::TurnLeft => Artist { heading: left_of(a.heading), ..a },
        Operation::TurnRight => Artist { heading: right_of(a.heading), ..a },
        Operation::Home => Artist { x: HOME_X, y: HOME_Y, ..a },
        Operation::Noop(_) => a,
    }
}

/// The pen after the first `n` instructions of `ops`, each followed by a wrap.
pub open spec fn pen_after(ops: Seq<Operation>, n: int) -> Artist
    decreases n,
{
    if n <= 0 {
        home_artist()
    } else {
        wrapped(applied(pen_after(ops, n - 1), ops[n - 1]))
    }
}

/// The points of the drawn path: the home position, then where the pen stands
/// after each instruction, before it is brought back to the canvas.
pub fn convert(operations: &Vec<Operation>) -> (r: Vec<(isize, isize)>)
    requires
        forall|i: int| 0 <= i < operations@.len() ==> safe_op(#[trigger] operations@[i]),
    ensures
        r@.len() == operations@.len() + 1,
        r@[0] == (HOME_X, HOME_Y),
        forall|i: int|
            0 <= i < operations@.len() ==> #[trigger] r@[i + 1] == (
                applied(pen_after(operations@, i), operations@[i]).x,
                applied(pen_after(operations@, i), operations@[i]).y,
            ),
{
    let mut turtle = Artist::new();
    let mut path: Vec<(isize, isize)> = Vec::new();
    path.push((HOME_X, HOME_Y));
    let mut i: usize = 0;
    while i < operations.len()
        invariant
            i <= operations@.len(),
            forall|j: int| 0 <= j < operations@.len() ==> safe_op(#[trigger] operations@[j]),
            turtle == pen_after(operations@, i as int),
            on_canvas(turtle),
            path@.len() == i + 1,
            path@[0] == (HOME_X, HOME_Y),
            forall|j: int|
                0 <= j < i ==> #[trigger] path@[j + 1] == (
                    applied(pen_after(operations@, j), operations@[j]).x,
                    applied(pen_after(operations@, j), operations@[j]).y,
                ),
        decreases operations@.len() - i,
    {
        let op = operations[i];
        assert(safe_op(operations@[i as int]));
        match op {
            Operation::Forward(distance) => turtle.forward(distance),
            Operation::TurnLeft => turtle.turn_left(),
            Operation::TurnRight => turtle.turn_right(),
            Operation::Home => turtle.home(),
            Operation::Noop(_) => {},
        }
        path.push((turtle.x, turtle.y));
        turtle.wrap();
        i = i + 1;
    }
    path
}

} // verus!
