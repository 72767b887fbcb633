use vstd::prelude::*;

verus! {

/// One of the four headings on the grid.
#[derive(Debug, Clone, Copy, PartialEq, Eq, Structural)]
pub enum Direction {
    Up,
    Right,
    Down,
    Left,
}

impl Direction {
    pub open spec fn opposite_spec(self) -> Direction {
        match self {
            Direction::Up => Direction::Down,
            Direction::Right => Direction::Left,
            Direction::Down => Direction::Up,
            Direction::Left => Direction::Right,
        }
    }

    /// The heading that points the other way.
    pub fn opposite(&self) -> (r: Direction)
        ensures
            r == self.opposite_spec(),
    {
        match self {
            Direction::Up => Direction::Down,
            Direction::Right => Direction::Left,
            Direction::Down => Direction::Up,
            Direction::Left => Direction::Right,
        }
    }
}

/// Turning the other way twice gives back the heading one started from.
pub proof fn lemma_opposite_involution(d: Direction)
    ensures
        d.opposite_spec().opposite_spec() == d,
{
}

/// A request coming from the player.
#[derive(Debug, Clone, Copy, PartialEq, Eq, Structural)]
pub enum Command {
    Turn(Direction),
}

/// A cell of the grid; the origin is a corner, so coordinates never go below zero.
#[derive(Debug, Clone, Copy, Hash, PartialEq, Eq, Structural)]
pub struct Point {
    pub x: u16,
    pub y: u16,
}

/// Two cells that share a side.
pub open spec fn adjacent(p: Point, q: Point) -> bool {
    (p.x == q.x && (p.y + 1 == q.y || q.y + 1 == p.y))
        || (p.y == q.y && (p.x + 1 == q.x || q.x + 1 == p.x))
}

/// Every cell of the sequence shares a side with the one after it.
pub open spec fn connected(s: Seq<Point>) -> bool {
    forall|i: int| 0 <= i < s.len() - 1 ==> #[trigger] adjacent(s[i], s[i + 1])
}

impl Point {
    /// Moving `n` cells towards `d` stays inside the range of the coordinates.
    pub open spec fn can_transform(self, d: Direction, n: int) -> bool {
        0 <= n && match d {
            Direction::Up => n <= self.y,
            Direction::Left => n <= self.x,
            Direction::Right => self.x + n <= u16::MAX,
            Direction::Down => self.y + n <= u16::MAX,
        }
    }

    /// The cell `n` steps towards `d`; `y` grows downwards.
    pub open spec fn transform_spec(self, d: Direction, n: int) -> Point {
        match d {
            Direction::Up => Point { x: self.x, y: (self.y - n) as u16 },
            Direction::Right => Point { x: (self.x + n) as u16, y: self.y },
            Direction::Down => Point { x: self.x, y: (self.y + n) as u16 },
            Direction::Left => Point { x: (self.x - n) as u16, y: self.y },
        }
    }

    pub fn new(x: u16, y: u16) -> (r: Point)
        ensures
            r == (Point { x, y }),
    {
        Point { x, y }
    }

    /// The cell `times` steps away towards `direction`. Moving above the top
    /// row or left of the first column is not allowed.
    pub fn transform(&self, direction: Direction, times: u16) -> (r: Point)
        requires
            self.can_transform(direction, times as int),
        ensures
            r == self.transform_spec(direction, times as int),
    {
        let t = times as i32;
        let (dx, dy): (i32, i32) = match direction {
            Direction::Up => (0, -t),
            Direction::Right => (t, 0),
            Direction::Down => (0, t),
            Direction::Left => (-t, 0),
        };
        Point::new(Self::transform_value(self.x, dx), Self::transform_value(self.y, dy))
    }

    fn transform_value(value: u16, by: i32) -> (r: u16)
        requires
            -65535 <= by <= 65535,
            0 <= value + by <= u16::MAX,
        ensures
            r == value + by,
    {
        (value as i32 + by) as u16
    }
}

/// Moving `n` cells one way and then `n` cells back returns to the start.
pub proof fn lemma_transform_round_trip(p: Point, d: Direction, n: u16)
    requires
        p.can_transform(d, n as int),
    ensures
        p.transform_spec(d, n as int).can_transform(d.opposite_spec(), n as int),
        p.transform_spec(d, n as int).transform_spec(d.opposite_spec(), n as int) == p,
{
}

/// A snake: its cells from head to tail, its heading, and whether it has a
/// meal to digest on its next move.
#[derive(Debug)]
pub struct Snake {
    body: Vec<Point>,
    direction: Direction,
    digesting: bool,
}

impl Snake {
    /// The cells of the body, head first.
    pub closed spec fn body_seq(&self) -> Seq<Point> {
        self.body@
    }

    pub closed spec fn heading(&self) -> Direction {
        self.direction
    }

    pub closed spec fn is_digesting(&self) -> bool {
        self.digesting
    }

    pub open spec fn head(&self) -> Point {
        self.body_seq()[0]
    }

    /// A body has a head and no gaps.
    pub open spec fn wf(&self) -> bool {
        self.body_seq().len() >= 1 && connected(self.body_seq())
    }

    /// `after` is `before` moved one cell: a new head in front, the tail
    /// kept only while digesting, and nothing left to digest.
    pub open spec fn slithered(before: Snake, after: Snake) -> bool {
        let head = before.head().transform_spec(before.heading(), 1);
        &&& after.heading() == before.heading()
        &&& !after.is_digesting()
        &&& after.body_seq() == if before.is_digesting() {
            seq![head] + before.body_seq()
        } else {
            seq![head] + before.body_seq().drop_last()
        }
    }

    /// A snake of `length` cells with its head at `start`, laid out straight
    /// behind the head, facing `direction`.
    pub fn new(start: Point, length: u16, direction: Direction) -> (r: Snake)
        requires
            length >= 1,
            start.can_transform(direction.opposite_spec(), length - 1),
        ensures
            r.wf(),
            r.body_seq().len() == length,
            r.head() == start,
            forall|i: int|
                0 <= i < length ==> #[trigger] r.body_seq()[i] == start.transform_spec(
                    direction.opposite_spec(),
                    i,
                ),
            r.heading() == direction,
            !r.is_digesting(),
    {
        let opposite = direction.opposite();
        let mut body: Vec<Point> = Vec::new();
        let mut i: u16 = 0;
        while i < length
            invariant
                i <= length,
                start.can_transform(opposite, length - 1),
                opposite == direction.opposite_spec(),
                body@.len() == i,
                forall|j: int| 0 <= j < i ==> #[trigger] body@[j] == start.transform_spec(opposite, j),
            decreases length - i,
        {
            body.push(start.transform(opposite, i));
            i = i + 1;
        }
        proof {
            assert forall|j: int| 0 <= j < body@.len() - 1 implies #[trigger] adjacent(
                body@[j],
                body@[j + 1],
            ) by {
                assert(body@[j] == start.transform_spec(opposite, j));
                assert(body@[j + 1] == start.transform_spec(opposite, j + 1));
            }
        }
        Snake { body, direction, digesting: false }
    }

    pub fn get_head_point(&self) -> (r: Point)
        requires
            self.wf(),
        ensures
            r == self.head(),
    {
        self.body[0]
    }

    pub fn get_body_points(&self) -> (r: Vec<Point>)
        ensures
            r@ == self.body_seq(),
    {
        let mut out: Vec<Point> = Vec::new();
        let mut i: usize = 0;
        while i < self.body.len()
            invariant
                i <= self.body@.len(),
                out@ == self.body@.subrange(0, i as int),
            decreases self.body@.len() - i,
        {
            out.push(self.body[i]);
            i = i + 1;
        }
        assert(out@ == self.body@);
        out
    }

    pub fn get_direction(&self) -> (r: Direction)
        ensures
            r == self.heading(),
    {
        self.direction
    }

    /// Whether `point` is one of the cells of the body.
    pub fn contains_point(&self, point: &Point) -> (r: bool)
        ensures
            r == self.body_seq().contains(*point),
    {
        let mut i: usize = 0;
        while i < self.body.len()
            invariant
                i <= self.body@.len(),
                forall|j: int| 0 <= j < i ==> self.body@[j] != *point,
            decreases self.body@.len() - i,
        {
            if self.body[i] == *point {
                return true;
            }
            i = i + 1;
        }
        false
    }

    /// Moves one cell forward: a new head is put in front, and the tail is
    /// dropped unless a meal was being digested, which is then used up.
    pub fn slither(&mut self)
        requires
            old(self).wf(),
            old(self).head().can_transform(old(self).heading(), 1),
        ensures
            final(self).wf(),
            final(self).heading() == old(self).heading(),
            Snake::slithered(*old(self), *final(self)),
    {
        let new_head = self.body[0].transform(self.direction, 1);
        let ghost before = self.body@;
        self.body.insert(0, new_head);
        assert(self.body@ == seq![new_head] + before);
        if !self.digesting {
            let last = self.body.len() - 1;
            self.body.remove(last);
            assert(self.body@ == seq![new_head] + before.drop_last());
        } else {
            self.digesting = false;
        }
        proof {
            let s = self.body@;
            assert forall|j: int| 0 <= j < s.len() - 1 implies #[trigger] adjacent(s[j], s[j + 1]) by {
                if j > 0 {
                    assert(adjacent(before[j - 1], before[(j - 1) + 1]));
                    assert(s[j] == before[j - 1]);
                    assert(s[j + 1] == before[j]);
                } else {
                    assert(s[1] == before[0]);
                }
            }
        }
    }

    pub open spec fn grown(before: Snake, after: Snake) -> bool {
        &&& after.is_digesting()
        &&& after.body_seq() == before.body_seq()
        &&& after.heading() == before.heading()
    }

    pub fn set_direction(&mut self, direction: Direction)
        ensures
            final(self).heading() == direction,
            final(self).body_seq() == old(self).body_seq(),
            final(self).is_digesting() == old(self).is_digesting(),
    {
        self.direction = direction;
    }

    /// Arms the next move to keep the tail; arming it twice still grows once.
    pub fn grow(&mut self)
        ensures
            Snake::grown(*old(self), *final(self)),
    {
        self.digesting = true;
    }
}

/// A move keeps the length of the body, unless a meal was armed: then the
/// body is one cell longer and the meal is used up.
pub proof fn lemma_slither_length(before: Snake, after: Snake)
    requires
        before.wf(),
        Snake::slithered(before, after),
    ensures
        after.body_seq().len() == before.body_seq().len() + if before.is_digesting() {
            1int
        } else {
            0
        },
        !after.is_digesting(),
{
}

/// Growing and then moving makes the body exactly one cell longer, however
/// the snake stood before.
pub proof fn lemma_grow_then_slither(start: Snake, armed: Snake, moved: Snake)
    requires
        start.wf(),
        Snake::grown(start, armed),
        Snake::slithered(armed, moved),
    ensures
        moved.body_seq().len() == start.body_seq().len() + 1,
        !moved.is_digesting(),
{
}

} // verus!
