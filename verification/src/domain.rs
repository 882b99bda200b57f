//! Value types shared by the whole pipeline: grid coordinates, directions
//! (each carrying the destination cell it leads to), snakes and the board,
//! together with the spec-level notions of being inside the board and of a
//! cell being blocked by a snake body.

use vstd::prelude::*;

verus! {

/// A cell of the grid. Coordinates are signed so that one step off the board
/// (or the off-board root sentinel used by the pathfinder) is representable.
#[derive(Clone, Copy, PartialEq, Eq, Hash, Debug, Structural)]
pub struct Coord {
    pub x: i32,
    pub y: i32,
}

impl Coord {
    pub fn new(x: i32, y: i32) -> (c: Coord)
        ensures
            c.x == x,
            c.y == y,
    {
        Coord { x, y }
    }
}

/// A cardinal move. Each variant carries the destination coordinate obtained
/// by applying the move to the head it was derived from, so a `Direction`
/// value is only meaningful relative to that head. Two directions are equal
/// only if both the tag and the carried coordinate agree.
#[derive(Clone, Copy, PartialEq, Eq, Hash, Debug, Structural)]
pub enum Direction {
    Up(Coord),
    Down(Coord),
    Right(Coord),
    Left(Coord),
}

/// The destination coordinate carried by a direction.
pub open spec fn direction_coord(d: Direction) -> Coord {
    match d {
        Direction::Up(c) => c,
        Direction::Down(c) => c,
        Direction::Right(c) => c,
        Direction::Left(c) => c,
    }
}

/// The wire label of a direction, as the transport layer sends it.
pub open spec fn direction_label(d: Direction) -> Seq<char> {
    match d {
        Direction::Up(_) => "up"@,
        Direction::Down(_) => "down"@,
        Direction::Right(_) => "right"@,
        Direction::Left(_) => "left"@,
    }
}

impl Direction {
    pub fn as_str(&self) -> (r: &str)
        ensures
            r@ == direction_label(*self),
    {
        match self {
            Direction::Up(_) => "up",
            Direction::Down(_) => "down",
            Direction::Right(_) => "right",
            Direction::Left(_) => "left",
        }
    }

    pub fn get_coord(&self) -> (r: &Coord)
        ensures
            *r == direction_coord(*self),
    {
        match self {
            Direction::Up(coord) => coord,
            Direction::Down(coord) => coord,
            Direction::Right(coord) => coord,
            Direction::Left(coord) => coord,
        }
    }
}

/// One snake of the snapshot. The body is ordered from head to tail; the head
/// is duplicated in its own field for convenience. The last body segment is
/// the tail, which collision checks treat as about to vacate.
#[derive(Debug)]
pub struct Battlesnake {
    pub id: String,
    pub name: String,
    pub health: i32,
    pub body: Vec<Coord>,
    pub head: Coord,
    pub length: i32,
    pub latency: String,
    pub shout: Option<String>,
}

/// The mathematical model of a snake: every field, with sequences in place
/// of vectors and strings.
pub struct SnakeView {
    pub id: Seq<char>,
    pub name: Seq<char>,
    pub health: i32,
    pub body: Seq<Coord>,
    pub head: Coord,
    pub length: i32,
    pub latency: Seq<char>,
    pub shout: Option<Seq<char>>,
}

impl View for Battlesnake {
    type V = SnakeView;

    open spec fn view(&self) -> SnakeView {
        SnakeView {
            id: self.id@,
            name: self.name@,
            health: self.health,
            body: self.body@,
            head: self.head,
            length: self.length,
            latency: self.latency@,
            shout: match self.shout {
                Option::None => Option::None,
                Option::Some(s) => Option::Some(s@),
            },
        }
    }
}

impl Clone for Battlesnake {
    fn clone(&self) -> (res: Self)
        ensures
            res@ == self@,
    {
        Battlesnake {
            id: self.id.clone(),
            name: self.name.clone(),
            health: self.health,
            body: copy_coords(&self.body),
            head: self.head,
            length: self.length,
            latency: self.latency.clone(),
            shout: match &self.shout {
                Option::None => Option::None,
                Option::Some(s) => Option::Some(s.clone()),
            },
        }
    }
}

/// An element-for-element copy of a coordinate vector.
pub fn copy_coords(v: &Vec<Coord>) -> (r: Vec<Coord>)
    ensures
        r@ == v@,
{
    let mut r: Vec<Coord> = Vec::new();
    let mut i: usize = 0;
    while i < v.len()
        invariant
            i <= v@.len(),
            r@ == v@.take(i as int),
        decreases v@.len() - i,
    {
        r.push(v[i]);
        proof {
            assert(v@.take(i + 1 as int) =~= v@.take(i as int).push(v@[i as int]));
        }
        i = i + 1;
    }
    proof {
        assert(v@.take(v@.len() as int) =~= v@);
    }
    r
}

/// One turn's snapshot of the whole board. Cells range over
/// `[0, width) x [0, height)`.
#[derive(Debug)]
pub struct Board {
    pub height: u32,
    pub width: u32,
    pub food: Vec<Coord>,
    pub snakes: Vec<Battlesnake>,
    pub hazards: Vec<Coord>,
}

/// The coordinate lies strictly inside the board.
pub open spec fn in_bounds(board: Board, c: Coord) -> bool {
    &&& c.x >= 0
    &&& (c.x as int) < (board.width as int)
    &&& c.y >= 0
    &&& (c.y as int) < (board.height as int)
}

/// The coordinate is occupied by one of the body's segments, the tail
/// excluded: the tail is treated as about to vacate on the next turn.
pub open spec fn blocks(body: Seq<Coord>, c: Coord) -> bool {
    exists|i: int| 0 <= i < body.len() - 1 && body[i] == c
}

/// Both board dimensions fit in a signed 32-bit coordinate, so that one step
/// beyond any in-bounds cell is still representable.
pub open spec fn dims_ok(board: Board) -> bool {
    &&& (board.width as int) <= (i32::MAX as int)
    &&& (board.height as int) <= (i32::MAX as int)
}

/// The board's cell count fits comfortably in a machine word, so that the
/// pathfinder's per-cell table can be allocated and indexed.
pub open spec fn area_ok(board: Board) -> bool {
    (board.width as int) * (board.height as int) <= (i32::MAX as int)
}

/// Every snake of the snapshot has a non-empty body.
pub open spec fn snakes_wf(board: Board) -> bool {
    forall|i: int|
        0 <= i < board.snakes@.len() ==> (#[trigger] board.snakes@[i]).body@.len() >= 1
}

/// The cell one step up from `c`.
pub open spec fn up_from(c: Coord) -> Coord {
    Coord { x: c.x, y: (c.y + 1) as i32 }
}

/// The cell one step right from `c`.
pub open spec fn right_from(c: Coord) -> Coord {
    Coord { x: (c.x + 1) as i32, y: c.y }
}

/// The cell one step down from `c`.
pub open spec fn down_from(c: Coord) -> Coord {
    Coord { x: c.x, y: (c.y - 1) as i32 }
}

/// The cell one step left from `c`.
pub open spec fn left_from(c: Coord) -> Coord {
    Coord { x: (c.x - 1) as i32, y: c.y }
}

/// The four cardinal neighbours of `c`, in the fixed order the heuristics
/// enumerate them: up, right, down, left.
pub open spec fn neighbor(c: Coord, k: int) -> Coord {
    if k == 0 {
        up_from(c)
    } else if k == 1 {
        right_from(c)
    } else if k == 2 {
        down_from(c)
    } else {
        left_from(c)
    }
}

/// The four candidate directions from a head, in the fixed enumeration order
/// up, right, down, left, each carrying its destination cell.
pub open spec fn candidate_dirs(head: Coord) -> Seq<Direction> {
    seq![
        Direction::Up(up_from(head)),
        Direction::Right(right_from(head)),
        Direction::Down(down_from(head)),
        Direction::Left(left_from(head)),
    ]
}

} // verus!
