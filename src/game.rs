use vstd::prelude::*;

use crate::objects::Command;
use crate::objects::Direction;
use crate::objects::Point;
use crate::objects::Snake;
use vstd::arithmetic::div_mod::lemma_fundamental_div_mod;
use vstd::arithmetic::div_mod::lemma_fundamental_div_mod_converse;

verus! {

/// Delay between two ticks at the lowest speed, in milliseconds.
pub const MAX_INTERVAL: u16 = 700;

/// Delay between two ticks at the highest speed, in milliseconds.
pub const MIN_INTERVAL: u16 = 200;

/// The highest speed the game reaches.
pub const MAX_SPEED: u16 = 20;

/// Length of a freshly hatched snake.
pub const START_LENGTH: u16 = 3;

/// Code unit of an empty cell.
pub const SPACE: u16 = 0x20;

/// Code unit of the border, `#`.
pub const BORDER: u16 = 0x23;

/// Code unit that ends a row.
pub const LINE_BREAK: u16 = 0x0A;

/// Code unit of the food, `•`.
pub const FOOD: u16 = 0x2022;

/// Code unit of the head, `O`.
pub const HEAD: u16 = 0x4F;

/// Code unit of a vertical segment, `║`.
pub const VERTICAL: u16 = 0x2551;

/// Code unit of a horizontal segment, `═`.
pub const HORIZONTAL: u16 = 0x2550;

/// Code unit of the corner joining the cells below and to the right, `╔`.
pub const CORNER_DOWN_RIGHT: u16 = 0x2554;

/// Code unit of the corner joining the cells below and to the left, `╗`.
pub const CORNER_DOWN_LEFT: u16 = 0x2557;

/// Code unit of the corner joining the cells above and to the right, `╚`.
pub const CORNER_UP_RIGHT: u16 = 0x255A;

/// Code unit of the corner joining the cells above and to the left, `╝`.
pub const CORNER_UP_LEFT: u16 = 0x255D;

/// The delay for a speed: faster games wait less between ticks.
pub open spec fn interval_spec(speed: int) -> int {
    MIN_INTERVAL as int + ((MAX_INTERVAL as int - MIN_INTERVAL as int) / MAX_SPEED as int) * (
        MAX_SPEED as int - speed)
}

/// The heading picked by a number drawn from `0..4`; larger numbers face left.
pub open spec fn direction_of(n: u16) -> Direction {
    if n == 0 {
        Direction::Up
    } else if n == 1 {
        Direction::Right
    } else if n == 2 {
        Direction::Down
    } else {
        Direction::Left
    }
}

/// The heading after a command: a turn is taken unless it keeps the heading
/// or reverses it.
pub open spec fn turned(current: Direction, command: Option<Command>) -> Direction {
    match command {
        Some(Command::Turn(towards)) => if towards != current && towards
            != current.opposite_spec() {
            towards
        } else {
            current
        },
        None => current,
    }
}

/// Whether a head at `p` facing `d` is about to reach the border; the check
/// fires one cell before the drawn wall.
pub open spec fn wall_hit(p: Point, d: Direction, width: int, height: int) -> bool {
    match d {
        Direction::Up => p.y == 1,
        Direction::Right => p.x == width - 2,
        Direction::Down => p.y == height - 1,
        Direction::Left => p.x == 1,
    }
}

/// Whether the next head lands on the body, leaving out the current head
/// and the current tail.
pub open spec fn bites(body: Seq<Point>, d: Direction) -> bool {
    body.subrange(1, body.len() - 1).contains(body[0].transform_spec(d, 1))
}

/// A cell where food may be put: inside the border, away from its last
/// column and row.
pub open spec fn food_cell(p: Point, width: int, height: int) -> bool {
    1 <= p.x < width - 1 && 1 <= p.y < height - 1
}

/// The slot of the frame that shows the cell `(x, y)`. Each row takes
/// `width + 1` slots: its cells, then its line break. A column at or past
/// `width` is shifted one slot to the left, so the right border lands on the
/// row's last cell slot and the line break follows it.
pub open spec fn cell_index(width: int, x: int, y: int) -> int {
    if x >= width {
        x + y * width + y - 1
    } else {
        x + y * width + y
    }
}

/// The position of a column inside its row of slots.
pub open spec fn column_of(width: int, x: int) -> int {
    if x >= width {
        x - 1
    } else {
        x
    }
}

/// The row that slot `i` belongs to.
pub open spec fn row_of(width: int, i: int) -> int {
    i / (width + 1)
}

/// The position of slot `i` within its row.
pub open spec fn col_of(width: int, i: int) -> int {
    i % (width + 1)
}

/// The two cells `a` and `b` are, in some order, `s` and `t`.
pub open spec fn joins(a: Point, b: Point, s: Point, t: Point) -> bool {
    (a == s && b == t) || (a == t && b == s)
}

/// The corner drawn at `p` between its neighbours `a` and `b`. The cells
/// above and to the left of `p` are `p` itself on the first row and column.
pub open spec fn corner_glyph(p: Point, a: Point, b: Point) -> u16 {
    let down = Point { x: p.x, y: (p.y + 1) as u16 };
    let right = Point { x: (p.x + 1) as u16, y: p.y };
    let up = if p.y == 0 { p } else { Point { x: p.x, y: (p.y - 1) as u16 } };
    let left = if p.x == 0 { p } else { Point { x: (p.x - 1) as u16, y: p.y } };
    if joins(a, b, down, right) {
        CORNER_DOWN_RIGHT
    } else if joins(a, b, down, left) {
        CORNER_DOWN_LEFT
    } else if joins(a, b, up, right) {
        CORNER_UP_RIGHT
    } else {
        CORNER_UP_LEFT
    }
}

/// The glyph of segment `k` of a body of at least two cells: the head is
/// `O`, the tail is straight along its one neighbour, and a segment in
/// between is straight when its neighbours line up and a corner otherwise.
pub open spec fn segment_glyph(body: Seq<Point>, k: int) -> u16 {
    if k + 1 < body.len() {
        if k > 0 {
            let previous = body[k - 1];
            let next = body[k + 1];
            if previous.x == next.x {
                VERTICAL
            } else if previous.y == next.y {
                HORIZONTAL
            } else {
                corner_glyph(body[k], previous, next)
            }
        } else {
            HEAD
        }
    } else if body[k].y == body[k - 1].y {
        HORIZONTAL
    } else {
        VERTICAL
    }
}

/// Among the first `n` segments, the last one drawn into slot `i`, or -1.
pub open spec fn last_segment_at(body: Seq<Point>, width: int, i: int, n: int) -> int
    decreases n,
{
    if n <= 0 {
        -1
    } else if cell_index(width, body[n - 1].x as int, body[n - 1].y as int) == i {
        n - 1
    } else {
        last_segment_at(body, width, i, n - 1)
    }
}

/// Whether the food is drawn into slot `i`; food at a zero coordinate is
/// not drawn.
pub open spec fn food_slot(food: Option<Point>, width: int, i: int) -> bool {
    match food {
        Some(f) => f.x > 0 && f.y > 0 && cell_index(width, f.x as int, f.y as int) == i,
        None => false,
    }
}

/// Slots that the background clears: rows 1 to `height`, cell columns 1 to
/// `width - 1`.
pub open spec fn background_slot(width: int, height: int, i: int) -> bool {
    1 <= row_of(width, i) <= height && 1 <= col_of(width, i) <= width - 1
}

/// Slots of the frame's border: the first and last row, and the first and
/// last cell column of each row.
pub open spec fn border_slot(width: int, height: int, i: int) -> bool {
    row_of(width, i) == 0 || row_of(width, i) == height || col_of(width, i) == 0 || col_of(
        width,
        i,
    ) == width - 1
}

/// The state of one game: the board, the snake, the food, the score and
/// speed, and the rendered frame.
pub struct Game {
    width: u16,
    height: u16,
    food: Option<Point>,
    snake: Snake,
    speed: u16,
    score: u16,
    screen_buffer: Vec<u16>,
}

impl Game {
    pub closed spec fn width_spec(&self) -> int {
        self.width as int
    }

    pub closed spec fn height_spec(&self) -> int {
        self.height as int
    }

    pub closed spec fn food_spec(&self) -> Option<Point> {
        self.food
    }

    pub closed spec fn snake_spec(&self) -> Snake {
        self.snake
    }

    pub closed spec fn speed_spec(&self) -> int {
        self.speed as int
    }

    pub closed spec fn score_spec(&self) -> int {
        self.score as int
    }

    /// The rendered frame, one code unit per slot.
    pub closed spec fn buffer_spec(&self) -> Seq<u16> {
        self.screen_buffer@
    }

    pub open spec fn body(&self) -> Seq<Point> {
        self.snake_spec().body_seq()
    }

    /// Number of slots in the frame: the board, a border column and a line
    /// break per row.
    pub open spec fn frame_len(&self) -> int {
        self.width_spec() * self.height_spec() + self.width_spec() + self.height_spec()
    }

    pub open spec fn wf(&self) -> bool {
        let w = self.width_spec();
        let h = self.height_spec();
        let body = self.body();
        &&& 4 <= w
        &&& 4 <= h
        &&& (w + 1) * (h + 1) <= 65536
        &&& self.speed_spec() <= MAX_SPEED
        &&& self.snake_spec().wf()
        &&& body.len() >= START_LENGTH
        &&& body.len() + (if self.snake_spec().is_digesting() { 1int } else { 0 }) == START_LENGTH
            + self.score_spec()
        &&& 1 <= body[0].x <= w - 2
        &&& 1 <= body[0].y <= h - 1
        &&& forall|i: int| 0 <= i < body.len() ==> (#[trigger] body[i]).x <= w && body[i].y <= h
        &&& match self.food_spec() {
            Some(f) => food_cell(f, w, h) && !body.contains(f),
            None => true,
        }
        &&& self.buffer_spec().len() == self.frame_len()
    }

    /// Everything but the frame's content is the same in both games.
    pub open spec fn same_except_frame(self, other: Game) -> bool {
        &&& self.width_spec() == other.width_spec()
        &&& self.height_spec() == other.height_spec()
        &&& self.food_spec() == other.food_spec()
        &&& self.snake_spec() == other.snake_spec()
        &&& self.speed_spec() == other.speed_spec()
        &&& self.score_spec() == other.score_spec()
        &&& self.buffer_spec().len() == other.buffer_spec().len()
    }

    /// What a full drawing puts into slot `i`: line breaks and the border,
    /// then inside the border the food, else the last segment drawn there,
    /// else an empty cell.
    pub open spec fn frame_cell(self, i: int) -> u16 {
        let w = self.width_spec();
        let body = self.body();
        let last = last_segment_at(body, w, i, body.len() as int);
        if col_of(w, i) == w {
            LINE_BREAK
        } else if border_slot(w, self.height_spec(), i) {
            BORDER
        } else if food_slot(self.food_spec(), w, i) {
            FOOD
        } else if last >= 0 {
            segment_glyph(body, last)
        } else {
            SPACE
        }
    }

    /// A board of `width` by `height` cells with a snake of three cells in
    /// its middle, facing the heading drawn as `rand_direction`. A speed past
    /// the highest one is taken as the highest.
    pub fn new(width: u16, height: u16, speed: u16, rand_direction: u16) -> (r: Game)
        requires
            4 <= width,
            4 <= height,
            (width + 1) * (height + 1) <= 65536,
        ensures
            r.wf(),
            r.width_spec() == width,
            r.height_spec() == height,
            r.speed_spec() == if speed <= MAX_SPEED { speed } else { MAX_SPEED },
            r.score_spec() == 0,
            r.food_spec() is None,
            r.snake_spec().heading() == direction_of(rand_direction),
            !r.snake_spec().is_digesting(),
            r.body().len() == START_LENGTH,
            forall|i: int|
                0 <= i < START_LENGTH ==> #[trigger] r.body()[i] == (Point {
                    x: (width / 2) as u16,
                    y: (height / 2) as u16,
                }).transform_spec(direction_of(rand_direction).opposite_spec(), i),
            r.buffer_spec() == Seq::new(r.frame_len() as nat, |i: int| 0x20u16),
    {
        let direction = if rand_direction == 0 {
            Direction::Up
        } else if rand_direction == 1 {
            Direction::Right
        } else if rand_direction == 2 {
            Direction::Down
        } else {
            Direction::Left
        };
        let start = Point::new(width / 2, height / 2);
        let snake = Snake::new(start, START_LENGTH, direction);
        proof {
            assert((width + 1) * (height + 1) == width * height + width + height + 1) by (nonlinear_arith);
        }
        let len: usize = (width as usize) * (height as usize) + (height as usize) + (width as usize);
        let mut screen_buffer: Vec<u16> = Vec::new();
        while screen_buffer.len() < len
            invariant
                screen_buffer@.len() <= len,
                forall|i: int| 0 <= i < screen_buffer@.len() ==> screen_buffer@[i] == 0x20u16,
            decreases len - screen_buffer@.len(),
        {
            screen_buffer.push(0x20u16);
        }
        let speed = if speed <= MAX_SPEED { speed } else { MAX_SPEED };
        let g = Game { width, height, food: None, snake, speed, score: 0, screen_buffer };
        proof {
            assert(g.buffer_spec() =~= Seq::new(g.frame_len() as nat, |i: int| 0x20u16));
            let body = g.body();
            assert forall|i: int| 0 <= i < body.len() implies (#[trigger] body[i]).x <= width
                && body[i].y <= height by {
                assert(body[i] == start.transform_spec(direction.opposite_spec(), i));
            }
            assert(body[0] == start.transform_spec(direction.opposite_spec(), 0));
        }
        g
    }

    /// The preset board: 30 by 10 cells at speed 2.
    pub fn default(rand_direction: u16) -> (r: Game)
        ensures
            r.wf(),
            r.width_spec() == 30,
            r.height_spec() == 10,
            r.speed_spec() == 2,
            r.score_spec() == 0,
            r.food_spec() is None,
            r.snake_spec().heading() == direction_of(rand_direction),
            r.body().len() == START_LENGTH,
            r.body()[0] == (Point { x: 15, y: 5 }),
    {
        Self::new(30, 10, 2, rand_direction)
    }

    pub fn width(&self) -> (r: u16)
        ensures
            r == self.width_spec(),
    {
        self.width
    }

    pub fn height(&self) -> (r: u16)
        ensures
            r == self.height_spec(),
    {
        self.height
    }

    pub fn speed(&self) -> (r: u16)
        ensures
            r == self.speed_spec(),
    {
        self.speed
    }

    pub fn score(&self) -> (r: u16)
        ensures
            r == self.score_spec(),
    {
        self.score
    }

    pub fn food(&self) -> (r: Option<Point>)
        ensures
            r == self.food_spec(),
    {
        self.food
    }

    pub fn snake(&self) -> (r: &Snake)
        ensures
            *r == self.snake_spec(),
    {
        &self.snake
    }

    pub fn screen_buffer(&self) -> (r: &[u16])
        ensures
            r@ == self.buffer_spec(),
    {
        self.screen_buffer.as_slice()
    }

    pub fn screen_buffer_len(&self) -> (r: usize)
        ensures
            r == self.buffer_spec().len(),
    {
        self.screen_buffer.len()
    }

    /// The delay before the next tick, in milliseconds.
    pub fn calculate_interval(&self) -> (r: u64)
        requires
            self.wf(),
        ensures
            r == interval_spec(self.speed_spec()),
    {
        let speed: u64 = (MAX_SPEED - self.speed) as u64;
        let step: u64 = ((MAX_INTERVAL - MIN_INTERVAL) / MAX_SPEED) as u64;
        assert(step == 25);
        MIN_INTERVAL as u64 + step * speed
    }

    /// Whether the head is about to reach the border in its current heading.
    pub fn has_collided_with_wall(&self) -> (r: bool)
        requires
            self.wf(),
        ensures
            r == wall_hit(self.body()[0], self.snake_spec().heading(), self.width_spec(), self.height_spec()),
    {
        let head_point = self.snake.get_head_point();
        match self.snake.get_direction() {
            Direction::Up => head_point.y == 1,
            Direction::Right => head_point.x == self.width - 2,
            Direction::Down => head_point.y == self.height - 1,
            Direction::Left => head_point.x == 1,
        }
    }

    /// Whether the next move would run the head into the body.
    pub fn has_bitten_itself(&self) -> (r: bool)
        requires
            self.wf(),
            !wall_hit(self.body()[0], self.snake_spec().heading(), self.width_spec(), self.height_spec()),
        ensures
            r == bites(self.body(), self.snake_spec().heading()),
    {
        let head = self.snake.get_head_point();
        let next_head_point = head.transform(self.snake.get_direction(), 1);
        let body_points = self.snake.get_body_points();
        let ghost inner = body_points@.subrange(1, body_points@.len() - 1);
        let last = body_points.len() - 1;
        let mut i: usize = 1;
        while i < last
            invariant
                1 <= i <= last,
                last == body_points@.len() - 1,
                inner == body_points@.subrange(1, body_points@.len() - 1),
                body_points@ == self.body(),
                next_head_point == self.body()[0].transform_spec(self.snake_spec().heading(), 1),
                forall|j: int| 1 <= j < i ==> body_points@[j] != next_head_point,
            decreases last - i,
        {
            if body_points[i] == next_head_point {
                assert(inner[i - 1] == body_points@[i as int]);
                assert(inner.contains(next_head_point));
                return true;
            }
            i = i + 1;
        }
        assert forall|j: int| 0 <= j < inner.len() implies inner[j] != next_head_point by {
            assert(inner[j] == body_points@[j + 1]);
        }
        false
    }

    /// Offers the cell `(x, y)` for the food. While there is no food, a free
    /// food cell is taken and the result is true, any other cell is turned
    /// down; with food on the board nothing changes.
    pub fn place_food(&mut self, x: u16, y: u16) -> (placed: bool)
        requires
            old(self).wf(),
        ensures
            final(self).wf(),
            final(self).width_spec() == old(self).width_spec(),
            final(self).height_spec() == old(self).height_spec(),
            final(self).snake_spec() == old(self).snake_spec(),
            final(self).speed_spec() == old(self).speed_spec(),
            final(self).score_spec() == old(self).score_spec(),
            final(self).buffer_spec() == old(self).buffer_spec(),
            placed == final(self).food_spec() is Some,
            final(self).food_spec() == if old(self).food_spec() is None && food_cell(
                Point { x, y },
                old(self).width_spec(),
                old(self).height_spec(),
            ) && !old(self).body().contains(Point { x, y }) {
                Some(Point { x, y })
            } else {
                old(self).food_spec()
            },
    {
        if self.food.is_none() {
            let point = Point::new(x, y);
            if 1 <= x && x < self.width - 1 && 1 <= y && y < self.height - 1
                && !self.snake.contains_point(&point) {
                self.food = Some(point);
                return true;
            }
            return false;
        }
        true
    }

    /// One step of the game. A command that neither keeps nor reverses the
    /// heading turns the snake. If the head is about to reach the border or
    /// its own body the game is over: the result is true and the snake stays
    /// where it is. Otherwise the snake moves; if it reaches the food, it
    /// eats it: it will grow, the food is gone, the score goes up by one and
    /// every second point makes the game one step faster, up to the highest
    /// speed.
    pub fn tick(&mut self, command: Option<Command>) -> (done: bool)
        requires
            old(self).wf(),
            old(self).score_spec() < u16::MAX,
        ensures
            final(self).wf(),
            final(self).width_spec() == old(self).width_spec(),
            final(self).height_spec() == old(self).height_spec(),
            final(self).buffer_spec() == old(self).buffer_spec(),
            final(self).snake_spec().heading() == turned(old(self).snake_spec().heading(), command),
            done == (wall_hit(
                old(self).body()[0],
                final(self).snake_spec().heading(),
                old(self).width_spec(),
                old(self).height_spec(),
            ) || bites(old(self).body(), final(self).snake_spec().heading())),
            done ==> final(self).body() == old(self).body() && final(self).snake_spec().is_digesting()
                == old(self).snake_spec().is_digesting() && final(self).food_spec()
                == old(self).food_spec() && final(self).score_spec() == old(self).score_spec()
                && final(self).speed_spec() == old(self).speed_spec(),
            !done ==> {
                let head = old(self).body()[0].transform_spec(final(self).snake_spec().heading(), 1);
                let eaten = old(self).food_spec() == Some(head);
                &&& final(self).body() == if old(self).snake_spec().is_digesting() {
                    seq![head] + old(self).body()
                } else {
                    seq![head] + old(self).body().drop_last()
                }
                &&& final(self).snake_spec().is_digesting() == eaten
                &&& final(self).food_spec() == if eaten { None } else { old(self).food_spec() }
                &&& final(self).score_spec() == old(self).score_spec() + if eaten { 1int } else { 0 }
                &&& final(self).speed_spec() == if eaten && old(self).speed_spec() < MAX_SPEED && (
                old(self).score_spec() + 1) % 2 == 0 {
                    old(self).speed_spec() + 1
                } else {
                    old(self).speed_spec()
                }
            },
    {
        let direction = self.snake.get_direction();
        if let Some(command) = command {
            match command {
                Command::Turn(towards) => {
                    if direction != towards && direction.opposite() != towards {
                        self.snake.set_direction(towards);
                    }
                },
            }
        }
        if self.has_collided_with_wall() || self.has_bitten_itself() {
            return true;
        }
        let ghost before = self.body();
        let ghost food_before = self.food;
        self.snake.slither();
        let ghost after = self.body();
        let head = self.snake.get_head_point();
        assert(after[0] == head);
        if let Some(food_point) = self.food {
            if head == food_point {
                self.snake.grow();
                self.food = None;
                self.score = self.score + 1;
                if self.speed < MAX_SPEED && self.score % 2 == 0 {
                    self.speed = self.speed + 1;
                }
            }
        }
        proof {
            let w = self.width_spec();
            let h = self.height_spec();
            let body = self.body();
            assert(body == after);
            assert forall|i: int| 0 <= i < body.len() implies (#[trigger] body[i]).x <= w
                && body[i].y <= h by {
                if i > 0 {
                    assert(body[i] == before[i - 1]);
                    assert(before[i - 1].x <= w && before[i - 1].y <= h);
                } else {
                    assert(body[0] == head);
                    assert(1 <= head.x <= w - 2);
                }
            }
            match self.food {
                Some(f) => {
                    assert(food_before == Some(f));
                    assert(f != head);
                    if body.contains(f) {
                        let k = choose|k: int| 0 <= k < body.len() && body[k] == f;
                        assert(k > 0);
                        assert(before[k - 1] == f);
                        assert(before.contains(f));
                    }
                    assert(!body.contains(f));
                    assert(food_cell(f, w, h));
                },
                None => {},
            }
        }
        false
    }
}

/// Food on the board never lies under the snake, whatever state the game
/// has reached.
pub proof fn lemma_food_off_snake(g: Game)
    requires
        g.wf(),
    ensures
        forall|f: Point| g.food_spec() == Some(f) ==> !g.body().contains(f),
{
}

/// The heading changes exactly when the command asks for a quarter turn:
/// asking for the current heading or the reverse one keeps it.
pub proof fn lemma_turn(current: Direction, towards: Direction)
    ensures
        (towards == current || towards == current.opposite_spec()) ==> turned(
            current,
            Some(Command::Turn(towards)),
        ) == current,
        (towards != current && towards != current.opposite_spec()) ==> turned(
            current,
            Some(Command::Turn(towards)),
        ) == towards && towards != current,
        turned(current, None) == current,
{
}

/// The wall check fires at the boundary cell for each heading and not on
/// the cell just behind it.
pub proof fn lemma_wall_boundary(p: Point, d: Direction, width: int, height: int)
    requires
        4 <= width,
        4 <= height,
        1 <= p.x <= width - 2,
        1 <= p.y <= height - 1,
    ensures
        wall_hit(p, d, width, height) <==> match d {
            Direction::Up => p.y == 1,
            Direction::Right => p.x == width - 2,
            Direction::Down => p.y == height - 1,
            Direction::Left => p.x == 1,
        },
        wall_hit(p, d, width, height) && p.can_transform(d.opposite_spec(), 1) ==> !wall_hit(
            p.transform_spec(d.opposite_spec(), 1),
            d,
            width,
            height,
        ),
{
}

/// A frame of at most 65536 slots leaves room to count one past each side.
proof fn lemma_dims(width: int, height: int)
    requires
        4 <= width,
        4 <= height,
        (width + 1) * (height + 1) <= 65536,
    ensures
        width < 13107,
        height < 13107,
{
    assert(width < 13107) by (nonlinear_arith)
        requires
            (width + 1) * (height + 1) <= 65536,
            height >= 4,
    ;
    assert(height < 13107) by (nonlinear_arith)
        requires
            (width + 1) * (height + 1) <= 65536,
            width >= 4,
    ;
}

/// Slot `i` lies at row `y` and position `c` exactly when `i` is `y` rows of
/// `width + 1` slots plus `c`.
proof fn lemma_slot(width: int, i: int, y: int, c: int)
    requires
        width >= 1,
        0 <= c <= width,
        0 <= y,
        0 <= i,
    ensures
        (i == y * (width + 1) + c) <==> (row_of(width, i) == y && col_of(width, i) == c),
{
    lemma_fundamental_div_mod(i, width + 1);
    assert((width + 1) * (i / (width + 1)) == (i / (width + 1)) * (width + 1)) by (nonlinear_arith);
    if i == y * (width + 1) + c {
        lemma_fundamental_div_mod_converse(i, width + 1, y, c);
    }
}

proof fn lemma_cell_index(width: int, x: int, y: int)
    requires
        width >= 1,
        0 <= x <= width + 1,
        0 <= y,
    ensures
        cell_index(width, x, y) == y * (width + 1) + column_of(width, x),
        0 <= column_of(width, x) <= width,
{
    assert(y * (width + 1) == y * width + y) by (nonlinear_arith);
}

/// Slots of the frame lie in rows `0..=height`, and the last row has no
/// line break.
proof fn lemma_frame_rows(width: int, height: int, i: int)
    requires
        width >= 1,
        height >= 1,
        0 <= i < width * height + width + height,
    ensures
        0 <= row_of(width, i) <= height,
        0 <= col_of(width, i) <= width,
        row_of(width, i) == height ==> col_of(width, i) < width,
{
    lemma_fundamental_div_mod(i, width + 1);
    let r = row_of(width, i);
    let c = col_of(width, i);
    assert(0 <= c <= width);
    assert(r >= 0) by {
        if r < 0 {
            assert((width + 1) * r <= -(width + 1)) by (nonlinear_arith)
                requires
                    r < 0,
                    width >= 1,
            ;
        }
    }
    if r > height {
        assert((width + 1) * r >= (width + 1) * (height + 1)) by (nonlinear_arith)
            requires
                r > height,
                width >= 1,
        ;
        assert((width + 1) * (height + 1) == width * height + width + height + 1) by (nonlinear_arith);
    }
    if r == height {
        assert((width + 1) * height == width * height + height) by (nonlinear_arith);
    }
}

/// Two different cells of a row of the frame, `(x1, y1)` and `(x2, y2)`
/// with columns up to `width + 1`, are drawn into different slots; the one
/// exception is the last cell column, `width - 1`, which shares its slot
/// with the right border at `width`.
pub proof fn lemma_cell_index_injective(width: int, x1: int, y1: int, x2: int, y2: int)
    requires
        width >= 1,
        0 <= x1 <= width + 1,
        0 <= x2 <= width + 1,
        0 <= y1,
        0 <= y2,
        x1 != x2 || y1 != y2,
        !(y1 == y2 && ((x1 == width - 1 && x2 == width) || (x1 == width && x2 == width - 1))),
    ensures
        cell_index(width, x1, y1) != cell_index(width, x2, y2),
{
    lemma_cell_index(width, x1, y1);
    lemma_cell_index(width, x2, y2);
    let i = cell_index(width, x1, y1);
    assert(i >= 0) by {
        assert(y1 * (width + 1) >= 0) by (nonlinear_arith)
            requires
                y1 >= 0,
                width >= 1,
        ;
    }
    lemma_slot(width, i, y1, column_of(width, x1));
    lemma_slot(width, i, y2, column_of(width, x2));
}

impl Game {
    /// Puts `symbol` into slot `index` of the frame.
    fn write_in_screen_buffer(&mut self, symbol: u16, index: usize)
        requires
            old(self).wf(),
            index < old(self).buffer_spec().len(),
        ensures
            final(self).wf(),
            final(self).same_except_frame(*old(self)),
            final(self).buffer_spec() == old(self).buffer_spec().update(index as int, symbol),
    {
        self.screen_buffer.set(index, symbol);
    }

    /// Puts `symbol` into the slot of the cell `(x, y)`.
    fn write_at_coords(&mut self, symbol: u16, x: u16, y: u16)
        requires
            old(self).wf(),
            x <= old(self).width_spec() + 1,
            y <= old(self).height_spec(),
            !(x == old(self).width_spec() + 1 && y == old(self).height_spec()),
        ensures
            final(self).wf(),
            final(self).same_except_frame(*old(self)),
            final(self).buffer_spec() == old(self).buffer_spec().update(
                cell_index(old(self).width_spec(), x as int, y as int),
                symbol,
            ),
            0 <= cell_index(old(self).width_spec(), x as int, y as int) < old(self).buffer_spec().len(),
    {
        let w = self.width as usize;
        let h = self.height as usize;
        proof {
            let wi = w as int;
            let hi = h as int;
            let yi = y as int;
            assert(yi * wi <= hi * wi) by (nonlinear_arith)
                requires
                    yi <= hi,
                    wi >= 0,
            ;
            if yi < hi {
                assert(yi * wi + yi + wi + 1 <= hi * wi + hi) by (nonlinear_arith)
                    requires
                        yi < hi,
                        wi >= 0,
                ;
            }
            assert((wi + 1) * (hi + 1) == hi * wi + hi + wi + 1) by (nonlinear_arith);
        }
        let mut index: usize = x as usize + (y as usize) * w;
        // one line break slot per row above
        index = index + y as usize;
        // the right border and the line break move one slot left
        if x as usize >= w {
            index = index - 1;
        }
        self.write_in_screen_buffer(symbol, index);
    }

    fn draw_background(&mut self)
        requires
            old(self).wf(),
        ensures
            final(self).wf(),
            final(self).same_except_frame(*old(self)),
            forall|i: int|
                0 <= i < old(self).frame_len() ==> #[trigger] final(self).buffer_spec()[i] == if background_slot(
                    old(self).width_spec(),
                    old(self).height_spec(),
                    i,
                ) {
                    SPACE
                } else {
                    old(self).buffer_spec()[i]
                },
    {
        let ghost start = *self;
        let ghost w = self.width_spec();
        let ghost len = self.frame_len();
        proof {
            lemma_dims(w, self.height_spec());
        }
        let mut y: u16 = 1;
        while y < self.height + 1
            invariant
                self.wf(),
                self.same_except_frame(start),
                start.wf(),
                w == start.width_spec(),
                len == start.frame_len(),
                w < 13107,
                self.height_spec() < 13107,
                1 <= y <= self.height_spec() + 1,
                forall|i: int|
                    0 <= i < len ==> #[trigger] self.buffer_spec()[i] == if 1 <= row_of(w, i) < y && 1
                        <= col_of(w, i) <= w - 1 {
                        SPACE
                    } else {
                        start.buffer_spec()[i]
                    },
            decreases self.height_spec() + 1 - y,
        {
            let mut x: u16 = 1;
            while x < self.width + 1
                invariant
                    self.wf(),
                    self.same_except_frame(start),
                    start.wf(),
                    w == start.width_spec(),
                    len == start.frame_len(),
                    w < 13107,
                    self.height_spec() < 13107,
                    1 <= y <= self.height_spec(),
                    1 <= x <= w + 1,
                    forall|i: int|
                        0 <= i < len ==> #[trigger] self.buffer_spec()[i] == if (1 <= row_of(w, i) < y
                            && 1 <= col_of(w, i) <= w - 1) || (row_of(w, i) == y && 1 <= col_of(w, i)
                            < x && col_of(w, i) <= w - 1) {
                            SPACE
                        } else {
                            start.buffer_spec()[i]
                        },
                decreases w + 1 - x,
            {
                let ghost before = self.buffer_spec();
                self.write_at_coords(SPACE, x, y);
                proof {
                    lemma_cell_index(w, x as int, y as int);
                    assert forall|i: int| 0 <= i < len implies #[trigger] self.buffer_spec()[i] == if (1
                        <= row_of(w, i) < y && 1 <= col_of(w, i) <= w - 1) || (row_of(w, i) == y && 1
                        <= col_of(w, i) < x + 1 && col_of(w, i) <= w - 1) {
                        SPACE
                    } else {
                        start.buffer_spec()[i]
                    } by {
                        lemma_slot(w, i, y as int, column_of(w, x as int));
                        assert(self.buffer_spec()[i] == if i == cell_index(w, x as int, y as int) {
                            SPACE
                        } else {
                            before[i]
                        });
                    }
                }
                x = x + 1;
            }
            y = y + 1;
        }
    }

    fn draw_snake(&mut self)
        requires
            old(self).wf(),
        ensures
            final(self).wf(),
            final(self).same_except_frame(*old(self)),
            forall|i: int|
                0 <= i < old(self).frame_len() ==> #[trigger] final(self).buffer_spec()[i] == if last_segment_at(
                    old(self).body(),
                    old(self).width_spec(),
                    i,
                    old(self).body().len() as int,
                ) >= 0 {
                    segment_glyph(
                        old(self).body(),
                        last_segment_at(
                            old(self).body(),
                            old(self).width_spec(),
                            i,
                            old(self).body().len() as int,
                        ),
                    )
                } else {
                    old(self).buffer_spec()[i]
                },
    {
        let ghost start = *self;
        let ghost w = self.width_spec();
        let ghost len = self.frame_len();
        let body_points = self.snake.get_body_points();
        let ghost body = body_points@;
        proof {
            lemma_dims(w, self.height_spec());
        }
        let mut k: usize = 0;
        while k < body_points.len()
            invariant
                self.wf(),
                self.same_except_frame(start),
                start.wf(),
                w == start.width_spec(),
                len == start.frame_len(),
                body == start.body(),
                body_points@ == body,
                w < 65535,
                start.height_spec() < 65535,
                k <= body.len(),
                forall|i: int|
                    0 <= i < len ==> #[trigger] self.buffer_spec()[i] == if last_segment_at(
                        body,
                        w,
                        i,
                        k as int,
                    ) >= 0 {
                        segment_glyph(body, last_segment_at(body, w, i, k as int))
                    } else {
                        start.buffer_spec()[i]
                    },
            decreases body.len() - k,
        {
            let ghost before = self.buffer_spec();
            let symbol = Self::segment_glyph_at(&body_points, k);
            let point = body_points[k];
            assert(point.x <= w && point.y <= start.height_spec());
            self.write_at_coords(symbol, point.x, point.y);
            proof {
                assert forall|i: int| 0 <= i < len implies #[trigger] self.buffer_spec()[i] == if last_segment_at(
                    body,
                    w,
                    i,
                    k + 1,
                ) >= 0 {
                    segment_glyph(body, last_segment_at(body, w, i, k + 1))
                } else {
                    start.buffer_spec()[i]
                } by {
                    assert(self.buffer_spec()[i] == if i == cell_index(w, point.x as int, point.y as int) {
                        symbol
                    } else {
                        before[i]
                    });
                }
            }
            k = k + 1;
        }
    }

    /// The glyph of segment `i`, from its neighbours in the body.
    fn segment_glyph_at(body: &Vec<Point>, i: usize) -> (r: u16)
        requires
            2 <= body@.len(),
            i < body@.len(),
            forall|j: int| 0 <= j < body@.len() ==> (#[trigger] body@[j]).x < 65535 && body@[j].y < 65535,
        ensures
            r == segment_glyph(body@, i as int),
    {
        let point = body[i];
        assert(point.x < 65535 && point.y < 65535);
        if i < body.len() - 1 {
            if i > 0 {
                let previous = body[i - 1];
                let next = body[i + 1];
                if previous.x == next.x {
                    VERTICAL
                } else if previous.y == next.y {
                    HORIZONTAL
                } else {
                    let d = point.transform(Direction::Down, 1);
                    let r = point.transform(Direction::Right, 1);
                    let u = if point.y == 0 {
                        point
                    } else {
                        point.transform(Direction::Up, 1)
                    };
                    let l = if point.x == 0 {
                        point
                    } else {
                        point.transform(Direction::Left, 1)
                    };
                    if (next == d && previous == r) || (previous == d && next == r) {
                        CORNER_DOWN_RIGHT
                    } else if (next == d && previous == l) || (previous == d && next == l) {
                        CORNER_DOWN_LEFT
                    } else if (next == u && previous == r) || (previous == u && next == r) {
                        CORNER_UP_RIGHT
                    } else {
                        CORNER_UP_LEFT
                    }
                }
            } else {
                HEAD
            }
        } else {
            let previous = body[i - 1];
            if point.y == previous.y {
                HORIZONTAL
            } else {
                VERTICAL
            }
        }
    }

    fn draw_food(&mut self)
        requires
            old(self).wf(),
        ensures
            final(self).wf(),
            final(self).same_except_frame(*old(self)),
            forall|i: int|
                0 <= i < old(self).frame_len() ==> #[trigger] final(self).buffer_spec()[i] == if food_slot(
                    old(self).food_spec(),
                    old(self).width_spec(),
                    i,
                ) {
                    FOOD
                } else {
                    old(self).buffer_spec()[i]
                },
    {
        let food = match self.food {
            Some(f) => f,
            None => Point::new(0, 0),
        };
        if food.x > 0 && food.y > 0 {
            self.write_at_coords(FOOD, food.x, food.y);
        }
    }

    fn draw_borders(&mut self)
        requires
            old(self).wf(),
        ensures
            final(self).wf(),
            final(self).same_except_frame(*old(self)),
            forall|i: int|
                0 <= i < old(self).frame_len() ==> #[trigger] final(self).buffer_spec()[i] == if col_of(
                    old(self).width_spec(),
                    i,
                ) == old(self).width_spec() {
                    LINE_BREAK
                } else if border_slot(old(self).width_spec(), old(self).height_spec(), i) {
                    BORDER
                } else {
                    old(self).buffer_spec()[i]
                },
    {
        let ghost start = *self;
        let ghost w = self.width_spec();
        let ghost h = self.height_spec();
        let ghost len = self.frame_len();
        let width = self.width;
        let height = self.height;
        proof {
            lemma_dims(w, h);
        }
        let mut y: u16 = 0;
        while y < height
            invariant
                self.wf(),
                self.same_except_frame(start),
                start.wf(),
                w == start.width_spec(),
                h == start.height_spec(),
                width == w,
                height == h,
                len == start.frame_len(),
                w < 13107,
                y <= h,
                forall|i: int|
                    0 <= i < len ==> #[trigger] self.buffer_spec()[i] == if row_of(w, i) < y && col_of(w, i)
                        == w {
                        LINE_BREAK
                    } else if row_of(w, i) < y && (col_of(w, i) == 0 || col_of(w, i) == w - 1) {
                        BORDER
                    } else {
                        start.buffer_spec()[i]
                    },
            decreases h - y,
        {
            let ghost b0 = self.buffer_spec();
            self.write_at_coords(BORDER, 0, y);
            let ghost b1 = self.buffer_spec();
            self.write_at_coords(BORDER, width, y);
            let ghost b2 = self.buffer_spec();
            self.write_at_coords(LINE_BREAK, width + 1, y);
            proof {
                let yi = y as int;
                lemma_cell_index(w, 0, yi);
                lemma_cell_index(w, w, yi);
                lemma_cell_index(w, w + 1, yi);
                assert forall|i: int| 0 <= i < len implies #[trigger] self.buffer_spec()[i] == if row_of(
                    w,
                    i,
                ) < y + 1 && col_of(w, i) == w {
                    LINE_BREAK
                } else if row_of(w, i) < y + 1 && (col_of(w, i) == 0 || col_of(w, i) == w - 1) {
                    BORDER
                } else {
                    start.buffer_spec()[i]
                } by {
                    lemma_slot(w, i, yi, 0);
                    lemma_slot(w, i, yi, w - 1);
                    lemma_slot(w, i, yi, w);
                    assert(b1[i] == if i == cell_index(w, 0, yi) { BORDER } else { b0[i] });
                    assert(b2[i] == if i == cell_index(w, w, yi) { BORDER } else { b1[i] });
                    assert(self.buffer_spec()[i] == if i == cell_index(w, w + 1, yi) {
                        LINE_BREAK
                    } else {
                        b2[i]
                    });
                }
            }
            y = y + 1;
        }
        let ghost middle = self.buffer_spec();
        let mut x: u16 = 0;
        while x < width
            invariant
                self.wf(),
                self.same_except_frame(start),
                start.wf(),
                w == start.width_spec(),
                h == start.height_spec(),
                width == w,
                height == h,
                len == start.frame_len(),
                middle.len() == len,
                x <= w,
                forall|i: int|
                    0 <= i < len ==> #[trigger] self.buffer_spec()[i] == if (row_of(w, i) == 0 || row_of(w, i)
                        == h) && col_of(w, i) < x {
                        BORDER
                    } else {
                        middle[i]
                    },
            decreases w - x,
        {
            let ghost b0 = self.buffer_spec();
            self.write_at_coords(BORDER, x, 0);
            let ghost b1 = self.buffer_spec();
            self.write_at_coords(BORDER, x, height);
            proof {
                let xi = x as int;
                lemma_cell_index(w, xi, 0);
                lemma_cell_index(w, xi, h);
                assert forall|i: int| 0 <= i < len implies #[trigger] self.buffer_spec()[i] == if (row_of(
                    w,
                    i,
                ) == 0 || row_of(w, i) == h) && col_of(w, i) < x + 1 {
                    BORDER
                } else {
                    middle[i]
                } by {
                    lemma_slot(w, i, 0, xi);
                    lemma_slot(w, i, h, xi);
                    assert(b1[i] == if i == cell_index(w, xi, 0) { BORDER } else { b0[i] });
                    assert(self.buffer_spec()[i] == if i == cell_index(w, xi, h) {
                        BORDER
                    } else {
                        b1[i]
                    });
                }
            }
            x = x + 1;
        }
        proof {
            assert forall|i: int| 0 <= i < len implies #[trigger] self.buffer_spec()[i] == if col_of(w, i)
                == w {
                LINE_BREAK
            } else if border_slot(w, h, i) {
                BORDER
            } else {
                start.buffer_spec()[i]
            } by {
                lemma_frame_rows(w, h, i);
            }
        }
    }

    /// Renders the game into the frame: the background, the snake, the food
    /// and the border, each over the one before.
    pub fn draw(&mut self)
        requires
            old(self).wf(),
        ensures
            final(self).wf(),
            final(self).same_except_frame(*old(self)),
            forall|i: int|
                0 <= i < final(self).frame_len() ==> #[trigger] final(self).buffer_spec()[i]
                    == old(self).frame_cell(i),
    {
        let ghost start = *self;
        self.draw_background();
        let ghost b1 = self.buffer_spec();
        self.draw_snake();
        let ghost b2 = self.buffer_spec();
        self.draw_food();
        let ghost b3 = self.buffer_spec();
        self.draw_borders();
        proof {
            let w = start.width_spec();
            let h = start.height_spec();
            assert forall|i: int| 0 <= i < self.frame_len() implies #[trigger] self.buffer_spec()[i]
                == start.frame_cell(i) by {
                lemma_frame_rows(w, h, i);
                assert(b1[i] == if background_slot(w, h, i) { SPACE } else { start.buffer_spec()[i] });
                let last = last_segment_at(start.body(), w, i, start.body().len() as int);
                assert(b2[i] == if last >= 0 { segment_glyph(start.body(), last) } else { b1[i] });
                assert(b3[i] == if food_slot(start.food_spec(), w, i) { FOOD } else { b2[i] });
            }
        }
    }
}

} // verus!
