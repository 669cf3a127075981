//! Game engine: a fixed-capacity, collision-aware snake advanced by a
//! tick-driven, difficulty-gated state machine, rendered through the frame
//! buffer writer.

use vstd::prelude::*;
use vstd::string::StringSliceAdditionalSpecFns;

use crate::vga_buffer::after_bytes;
use crate::vga_buffer::full_screen_model;
use crate::vga_buffer::sanitized;
use crate::vga_buffer::Writer;
use crate::vga_buffer::WriterModel;

verus! {

/// Largest number of cells the snake can occupy.
pub const MAX_SNAKE_LENGTH: u32 = 100;

/// Row of the snake's single starting cell.
pub const SNAKE_START_ROW: u32 = 11;

/// Column of the snake's single starting cell.
pub const SNAKE_START_COLUMN: u32 = 0;

/// Number of cells the snake occupies at the start of a game.
pub const SNAKE_START_LENGTH: u32 = 3;

/// Number of rows of the play field (the display grid minus its border).
pub const GAME_ROWS: u32 = 23;

/// Number of columns of the play field.
pub const GAME_COLUMNS: u32 = 78;

/// The tick divisor of a game: the snake advances one cell every N ticks.
#[derive(Debug, Clone, Copy, Eq, PartialEq, Structural)]
pub enum Difficulty {
    Easy,
    Medium,
    Hard,
}

/// The tick divisor a difficulty stands for.
pub open spec fn divisor(d: Difficulty) -> u32 {
    match d {
        Difficulty::Easy => 10,
        Difficulty::Medium => 5,
        Difficulty::Hard => 3,
    }
}

impl Difficulty {
    /// The tick divisor of this difficulty.
    pub fn as_u32(&self) -> (r: u32)
        ensures
            r == divisor(*self),
    {
        match self {
            Difficulty::Easy => 10,
            Difficulty::Medium => 5,
            Difficulty::Hard => 3,
        }
    }
}

/// A movement direction of the snake.
#[derive(Debug, Clone, Copy, PartialEq, Eq, Structural)]
pub enum Direction {
    Up,
    Down,
    Left,
    Right,
}

/// A (row, column) coordinate within the play field.
#[derive(Debug, Clone, Copy, Eq, PartialEq, Structural)]
pub struct Position(pub u32, pub u32);

/// Whether a position lies within the play field.
pub open spec fn in_bounds(p: Position) -> bool {
    p.0 < GAME_ROWS && p.1 < GAME_COLUMNS
}

/// Why a simulation step failed; every failure is terminal.
#[derive(Debug, Clone, Copy, PartialEq, Eq, Structural)]
pub enum StepError {
    /// The movement would leave the play field.
    BoundsExceeded,
    /// The next head position is already occupied by the body.
    SelfCollision,
    /// Growth was attempted at the maximum length (defensive; unreachable
    /// while treats are only placed below the maximum length).
    GrowthAtCapacity,
}

/// The keys the engine reacts to.
#[derive(Debug, Clone, Copy, PartialEq, Eq, Structural)]
pub enum KeyCode {
    ArrowUp,
    ArrowDown,
    ArrowLeft,
    ArrowRight,
    Other,
}

/// Whether a key went down or up.
#[derive(Debug, Clone, Copy, PartialEq, Eq, Structural)]
pub enum KeyState {
    Down,
    Up,
}

/// One decoded key transition, delivered by the keyboard layer.
#[derive(Debug, Clone, Copy, PartialEq, Eq, Structural)]
pub struct KeyEvent {
    pub code: KeyCode,
    pub state: KeyState,
}

/// Mathematical state of the snake: the occupied cells from tail (index 0)
/// to head (last index), the current direction, and the optional treat.
#[verifier::ext_equal]
pub ghost struct SnakeModel {
    pub body: Seq<Position>,
    pub direction: Direction,
    pub treat: Option<Position>,
}

/// Well-formed snake: between one cell and the maximum, every cell within
/// the play field, no cell occupied twice, and a treat (if any) within the
/// play field and off the body.
pub open spec fn wf_snake(s: SnakeModel) -> bool {
    &&& 1 <= s.body.len() <= MAX_SNAKE_LENGTH
    &&& forall|i: int| 0 <= i < s.body.len() ==> in_bounds(#[trigger] s.body[i])
    &&& forall|i: int, j: int| 0 <= i < j < s.body.len() ==> s.body[i] != s.body[j]
    &&& (s.treat matches Some(t) ==> in_bounds(t) && !s.body.contains(t))
}

/// The cell one step ahead of the head, or `None` when the step would
/// leave the play field.
pub open spec fn next_step_spec(head: Position, direction: Direction) -> Option<Position> {
    match direction {
        Direction::Right => if head.1 == GAME_COLUMNS - 1 {
            None
        } else {
            Some(Position(head.0, (head.1 + 1) as u32))
        },
        Direction::Down => if head.0 == GAME_ROWS - 1 {
            None
        } else {
            Some(Position((head.0 + 1) as u32, head.1))
        },
        Direction::Left => if head.1 == 0 {
            None
        } else {
            Some(Position(head.0, (head.1 - 1) as u32))
        },
        Direction::Up => if head.0 == 0 {
            None
        } else {
            Some(Position((head.0 - 1) as u32, head.1))
        },
    }
}

/// Whether two directions are 180 degrees apart.
pub open spec fn opposite(a: Direction, b: Direction) -> bool {
    ||| (a == Direction::Right && b == Direction::Left)
    ||| (a == Direction::Left && b == Direction::Right)
    ||| (a == Direction::Up && b == Direction::Down)
    ||| (a == Direction::Down && b == Direction::Up)
}

/// The direction after a turn request: a request that reverses the current
/// direction is ignored, any other request is applied.
pub open spec fn turn_spec(current: Direction, requested: Direction) -> Direction {
    if opposite(current, requested) {
        current
    } else {
        requested
    }
}

/// The snake after a growth attempt: the next cell ahead becomes the new
/// head and the length increases by one; a treat on that cell is consumed.
pub open spec fn grow_spec(s: SnakeModel) -> Result<SnakeModel, StepError> {
    if s.body.len() >= MAX_SNAKE_LENGTH {
        Err(StepError::GrowthAtCapacity)
    } else {
        match next_step_spec(s.body.last(), s.direction) {
            None => Err(StepError::BoundsExceeded),
            Some(next) => if s.body.contains(next) {
                Err(StepError::SelfCollision)
            } else {
                Ok(
                    SnakeModel {
                        body: s.body.push(next),
                        direction: s.direction,
                        treat: if s.treat == Some(next) {
                            None
                        } else {
                            s.treat
                        },
                    },
                )
            },
        }
    }
}

/// The snake after one movement step: onto the treat it grows; onto a free
/// cell the tail is dropped and the new head appended; onto its own body,
/// or out of the play field, the step fails and the snake is unchanged.
pub open spec fn move_spec(s: SnakeModel) -> Result<SnakeModel, StepError> {
    match next_step_spec(s.body.last(), s.direction) {
        None => Err(StepError::BoundsExceeded),
        Some(next) => if s.treat == Some(next) {
            grow_spec(s)
        } else if s.body.contains(next) {
            Err(StepError::SelfCollision)
        } else {
            Ok(
                SnakeModel {
                    body: s.body.drop_first().push(next),
                    direction: s.direction,
                    treat: s.treat,
                },
            )
        },
    }
}

/// The snake every game starts with: three cells on the start row, heading
/// right, with no treat placed.
pub open spec fn initial_snake() -> SnakeModel {
    SnakeModel {
        body: seq![
            Position(SNAKE_START_ROW, SNAKE_START_COLUMN),
            Position(SNAKE_START_ROW, (SNAKE_START_COLUMN + 1) as u32),
            Position(SNAKE_START_ROW, (SNAKE_START_COLUMN + 2) as u32),
        ],
        direction: Direction::Right,
        treat: None,
    }
}

/// The snake: a fixed-capacity position buffer plus a logical length (the
/// buffer never grows or shrinks), a direction, and an optional treat.
#[derive(Debug, Clone)]
pub struct Snake {
    positions: Vec<Position>,
    length: u32,
    direction: Direction,
    treat: Option<Position>,
}

impl View for Snake {
    type V = SnakeModel;

    closed spec fn view(&self) -> SnakeModel {
        SnakeModel {
            body: self.positions@.take(self.length as int),
            direction: self.direction,
            treat: self.treat,
        }
    }
}

impl Snake {
    /// The snake's invariant: a full backing buffer, a logical length within
    /// it, and a well-formed model.
    pub closed spec fn wf(&self) -> bool {
        &&& self.positions@.len() == MAX_SNAKE_LENGTH
        &&& 1 <= self.length <= MAX_SNAKE_LENGTH
        &&& wf_snake(self@)
    }

    /// The invariant implies the model-level invariant.
    pub proof fn lemma_wf_model(&self)
        requires
            self.wf(),
        ensures
            wf_snake(self@),
    {
    }

    /// A new snake of three cells at the start position, heading right.
    pub fn new() -> (s: Snake)
        ensures
            s.wf(),
            s@ == initial_snake(),
    {
        let start = Position(SNAKE_START_ROW, SNAKE_START_COLUMN);
        let mut snake = Snake {
            positions: vec![start; MAX_SNAKE_LENGTH as usize],
            length: 1,
            direction: Direction::Right,
            treat: None,
        };
        proof {
            assert(snake@.body =~= seq![start]);
        }
        let r1 = snake.grow();
        let r2 = snake.grow();
        proof {
            assert(r1 == Ok::<(), StepError>(()));
            assert(r2 == Ok::<(), StepError>(()));
            assert(snake@.body =~= initial_snake().body);
            assert(snake@ =~= initial_snake());
        }
        snake
    }

    /// The head cell (the last of the body).
    pub fn head(&self) -> (r: Position)
        requires
            self.wf(),
        ensures
            r == self@.body.last(),
    {
        self.positions[(self.length - 1) as usize]
    }

    /// The occupied cells, from tail to head.
    pub fn body(&self) -> (r: &[Position])
        requires
            self.wf(),
        ensures
            r@ == self@.body,
    {
        let r = &self.positions[0..(self.length as usize)];
        proof {
            assert(r@ =~= self@.body);
        }
        r
    }

    /// The current movement direction.
    pub fn direction(&self) -> (r: Direction)
        ensures
            r == self@.direction,
    {
        self.direction
    }

    /// The treat's position, while one is placed.
    pub fn treat(&self) -> (r: Option<Position>)
        ensures
            r == self@.treat,
    {
        self.treat
    }

    /// The cell one step ahead of the head, or `None` at the play-field
    /// edge.
    pub fn next_step(&self) -> (r: Option<Position>)
        requires
            self.wf(),
        ensures
            r == next_step_spec(self@.body.last(), self@.direction),
    {
        let head = self.head();
        match self.direction {
            Direction::Right => {
                if head.1 == GAME_COLUMNS - 1 {
                    None
                } else {
                    Some(Position(head.0, head.1 + 1))
                }
            },
            Direction::Down => {
                if head.0 == GAME_ROWS - 1 {
                    None
                } else {
                    Some(Position(head.0 + 1, head.1))
                }
            },
            Direction::Left => {
                if head.1 == 0 {
                    None
                } else {
                    Some(Position(head.0, head.1 - 1))
                }
            },
            Direction::Up => {
                if head.0 == 0 {
                    None
                } else {
                    Some(Position(head.0 - 1, head.1))
                }
            },
        }
    }

    /// Appends the cell ahead of the head as the new head, growing the
    /// logical length by one; consumes the treat if it sits there. Fails,
    /// leaving the snake unchanged, at the maximum length, at the
    /// play-field edge, or on self-collision.
    pub fn grow(&mut self) -> (r: Result<(), StepError>)
        requires
            old(self).wf(),
        ensures
            final(self).wf(),
            match grow_spec(old(self)@) {
                Ok(s) => r == Ok::<(), StepError>(()) && final(self)@ == s,
                Err(e) => r == Err::<(), StepError>(e) && final(self)@ == old(self)@,
            },
    {
        if self.is_at_maximum_length() {
            Err(StepError::GrowthAtCapacity)
        } else if let Some(position) = self.next_step() {
            if !self.occupies(position) {
                self.positions.set(self.length as usize, position);
                self.length = self.length + 1;
                if self.treat == Some(position) {
                    self.treat = None;
                }
                proof {
                    assert(final(self)@.body =~= old(self)@.body.push(position));
                    let s = final(self)@;
                    assert forall|i: int, j: int| 0 <= i < j < s.body.len() implies s.body[i]
                        != s.body[j] by {
                        if j == s.body.len() - 1 {
                            assert(!old(self)@.body.contains(position));
                            assert(old(self)@.body[i] == s.body[i]);
                        }
                    }
                    assert(wf_snake(s));
                }
                Ok(())
            } else {
                Err(StepError::SelfCollision)
            }
        } else {
            Err(StepError::BoundsExceeded)
        }
    }

    /// One movement step, as `move_spec` describes: growth onto the treat,
    /// a tail-dropping shift onto a free cell, or a terminal failure.
    pub fn move_snake(&mut self) -> (r: Result<(), StepError>)
        requires
            old(self).wf(),
        ensures
            final(self).wf(),
            match move_spec(old(self)@) {
                Ok(s) => r == Ok::<(), StepError>(()) && final(self)@ == s,
                Err(e) => r == Err::<(), StepError>(e) && final(self)@ == old(self)@,
            },
    {
        if let Some(next_head) = self.next_step() {
            if self.has_treat(next_head) {
                self.grow()
            } else if !self.occupies(next_head) {
                let n = self.length as usize;
                let mut i: usize = 0;
                while i < n - 1
                    invariant
                        old(self).wf(),
                        n == old(self).length as int,
                        1 <= n <= MAX_SNAKE_LENGTH,
                        0 <= i <= n - 1,
                        self.length == old(self).length,
                        self.direction == old(self).direction,
                        self.treat == old(self).treat,
                        self.positions@.len() == MAX_SNAKE_LENGTH,
                        forall|j: int|
                            0 <= j < i ==> self.positions@[j] == old(self).positions@[j + 1],
                        forall|j: int|
                            i <= j < MAX_SNAKE_LENGTH ==> self.positions@[j] == old(
                                self,
                            ).positions@[j],
                    decreases n - 1 - i,
                {
                    let moved = self.positions[i + 1];
                    self.positions.set(i, moved);
                    i = i + 1;
                }
                self.positions.set(n - 1, next_head);
                proof {
                    assert(final(self)@.body =~= old(self)@.body.drop_first().push(next_head));
                    let s = final(self)@;
                    let b0 = old(self)@.body;
                    assert forall|i: int, j: int| 0 <= i < j < s.body.len() implies s.body[i]
                        != s.body[j] by {
                        if j == s.body.len() - 1 {
                            assert(!b0.contains(next_head));
                            assert(s.body[i] == b0[i + 1]);
                        } else {
                            assert(s.body[i] == b0[i + 1] && s.body[j] == b0[j + 1]);
                        }
                    }
                    if s.treat is Some {
                        let t = s.treat->Some_0;
                        assert(!b0.contains(t));
                        assert forall|k: int| 0 <= k < s.body.len() implies s.body[k] != t by {
                            if k < s.body.len() - 1 {
                                assert(s.body[k] == b0[k + 1]);
                            }
                        }
                        assert(!s.body.contains(t));
                    }
                    assert(wf_snake(s));
                }
                Ok(())
            } else {
                Err(StepError::SelfCollision)
            }
        } else {
            Err(StepError::BoundsExceeded)
        }
    }

    /// Applies a direction change request, ignoring a 180-degree reversal.
    pub fn turn(&mut self, new_direction: Direction)
        requires
            old(self).wf(),
        ensures
            final(self).wf(),
            final(self)@.body == old(self)@.body,
            final(self)@.treat == old(self)@.treat,
            final(self)@.direction == turn_spec(old(self)@.direction, new_direction),
    {
        match (self.direction, new_direction) {
            (Direction::Right, Direction::Left) => (),
            (Direction::Left, Direction::Right) => (),
            (Direction::Up, Direction::Down) => (),
            (Direction::Down, Direction::Up) => (),
            _ => self.direction = new_direction,
        }
    }

    /// Whether the body occupies the given cell.
    pub fn occupies(&self, position: Position) -> (r: bool)
        requires
            self.wf(),
        ensures
            r == self@.body.contains(position),
    {
        let n = self.length as usize;
        let mut i: usize = 0;
        while i < n
            invariant
                self.wf(),
                n == self@.body.len(),
                0 <= i <= n,
                forall|j: int| 0 <= j < i ==> self@.body[j] != position,
            decreases n - i,
        {
            if self.positions[i] == position {
                proof {
                    assert(self@.body[i as int] == position);
                }
                return true;
            }
            i = i + 1;
        }
        proof {
            assert(!self@.body.contains(position));
        }
        false
    }

    /// Whether the treat is placed exactly at the given cell.
    pub fn has_treat(&self, position: Position) -> (r: bool)
        ensures
            r == (self@.treat == Some(position)),
    {
        if let Some(treat_position) = self.treat {
            treat_position == position
        } else {
            false
        }
    }

    /// Whether the snake has reached the maximum length.
    pub fn is_at_maximum_length(&self) -> (r: bool)
        requires
            self.wf(),
        ensures
            r == (self@.body.len() == MAX_SNAKE_LENGTH),
    {
        self.length == MAX_SNAKE_LENGTH
    }
}

/// Relies on rand::random: a value drawn from the standard distribution.
/// Nothing is promised of the result; callers must handle every value.
pub assume_specification<T>[ rand::random::<T> ]() -> (r: T)
    where
        rand::distributions::Standard: rand::distributions::Distribution<T>,
;

/// The given snake with its treat replaced.
pub open spec fn with_treat(s: SnakeModel, t: Option<Position>) -> SnakeModel {
    SnakeModel { body: s.body, direction: s.direction, treat: t }
}

/// What treat states a tick may establish: an existing treat, or a snake at
/// the maximum length, is left alone; otherwise a treat is placed within
/// the play field and off the body.
pub open spec fn treat_after(s: SnakeModel, t: Option<Position>) -> bool {
    if s.treat is Some || s.body.len() >= MAX_SNAKE_LENGTH {
        t == s.treat
    } else {
        t matches Some(p) && in_bounds(p) && !s.body.contains(p)
    }
}

/// The snake after the buffered direction request (if any) is applied
/// under the no-reversal rule.
pub open spec fn apply_pending(s: SnakeModel, next_move: Option<Direction>) -> SnakeModel {
    match next_move {
        None => s,
        Some(d) => SnakeModel {
            body: s.body,
            direction: turn_spec(s.direction, d),
            treat: s.treat,
        },
    }
}

/// The pending move after a key event: an arrow press overwrites it, any
/// other event leaves it untouched.
pub open spec fn next_move_after(next_move: Option<Direction>, event: KeyEvent) -> Option<
    Direction,
> {
    if event.state == KeyState::Down {
        match event.code {
            KeyCode::ArrowUp => Some(Direction::Up),
            KeyCode::ArrowRight => Some(Direction::Right),
            KeyCode::ArrowDown => Some(Direction::Down),
            KeyCode::ArrowLeft => Some(Direction::Left),
            KeyCode::Other => next_move,
        }
    } else {
        next_move
    }
}

/// The glyph drawn at the snake's head for each direction.
pub open spec fn glyph(d: Direction) -> u8 {
    match d {
        Direction::Right => 62,
        Direction::Down => 118,
        Direction::Left => 60,
        Direction::Up => 94,
    }
}

/// The symbol at one cell of the rendered frame: the border, the head
/// glyph, the treat, a body cell, or blank.
pub open spec fn frame_byte(s: SnakeModel, r: int, c: int) -> u8 {
    if r == 0 || r == crate::BUFFER_HEIGHT - 1 || c == 0 || c == crate::BUFFER_WIDTH - 1 {
        35
    } else {
        let p = Position((r - 1) as u32, (c - 1) as u32);
        if p == s.body.last() {
            glyph(s.direction)
        } else if s.treat == Some(p) {
            120
        } else if s.body.contains(p) {
            43
        } else {
            32
        }
    }
}

/// The full 25x80 frame of a snake, as a flat, row-major image.
pub open spec fn frame_image(s: SnakeModel) -> Seq<u8> {
    Seq::new(
        crate::vga_buffer::BUFFER_CELLS as nat,
        |i: int| frame_byte(s, i / crate::BUFFER_WIDTH as int, i % crate::BUFFER_WIDTH as int),
    )
}

/// A run of one repeated byte.
pub open spec fn repeat_byte(b: u8, n: nat) -> Seq<u8> {
    Seq::new(n, |i: int| b)
}

/// A text centered on an 80-column line: padded with spaces on both sides,
/// the excess space on the right; a longer text is left as it is.
pub open spec fn centered(m: Seq<u8>) -> Seq<u8> {
    if m.len() >= 80 {
        m
    } else {
        let left = (80 - m.len()) / 2;
        repeat_byte(32, left as nat) + m + repeat_byte(32, (80 - m.len() - left) as nat)
    }
}

/// The byte stream of the terminal message screen: blank lines, the
/// centered message, and blank lines below it.
pub open spec fn message_screen(m: Seq<u8>) -> Seq<u8> {
    repeat_byte(10, 25) + centered(m) + repeat_byte(10, 13)
}

/// The message text shown for each terminal failure.
pub open spec fn message_bytes(e: StepError) -> Seq<u8> {
    match e {
        StepError::BoundsExceeded => ("Bounds reached!").spec_bytes(),
        StepError::SelfCollision => ("Your snake bit itself!").spec_bytes(),
        StepError::GrowthAtCapacity => ("Snake is at maximum length").spec_bytes(),
    }
}

/// The message text shown for a terminal failure.
pub fn message(e: StepError) -> (r: &'static str)
    ensures
        r.spec_bytes() == message_bytes(e),
{
    match e {
        StepError::BoundsExceeded => "Bounds reached!",
        StepError::SelfCollision => "Your snake bit itself!",
        StepError::GrowthAtCapacity => "Snake is at maximum length",
    }
}

/// The play-field cell a row-major scan index stands for.
pub open spec fn scan_cell(k: int) -> Position {
    Position((k / GAME_COLUMNS as int) as u32, (k % GAME_COLUMNS as int) as u32)
}

/// Distinct scan indices within the first row pair stand for distinct
/// cells.
proof fn lemma_scan_cell_injective(k1: int, k2: int)
    requires
        0 <= k1 <= MAX_SNAKE_LENGTH,
        0 <= k2 <= MAX_SNAKE_LENGTH,
        k1 != k2,
    ensures
        scan_cell(k1) != scan_cell(k2),
{
    vstd::arithmetic::div_mod::lemma_fundamental_div_mod(k1, GAME_COLUMNS as int);
    vstd::arithmetic::div_mod::lemma_fundamental_div_mod(k2, GAME_COLUMNS as int);
}

/// A turn request that reverses the current direction is ignored; any
/// other request is applied.
pub proof fn lemma_reversal_noop(current: Direction, requested: Direction)
    ensures
        opposite(current, requested) ==> turn_spec(current, requested) == current,
        !opposite(current, requested) ==> turn_spec(current, requested) == requested,
{
}

/// A snake at the rightmost play-field column moving right fails its next
/// step with `BoundsExceeded` and is left unchanged.
pub proof fn lemma_boundary_termination(s: SnakeModel)
    requires
        wf_snake(s),
        s.direction == Direction::Right,
        s.body.last().1 == GAME_COLUMNS - 1,
    ensures
        move_spec(s) == Err::<SnakeModel, StepError>(StepError::BoundsExceeded),
{
}

/// A next head cell that coincides with an existing body cell (never the
/// treat, which a well-formed snake keeps off its body) ends the game
/// with `SelfCollision`, leaving the snake unchanged.
pub proof fn lemma_self_collision_termination(s: SnakeModel, p: Position)
    requires
        wf_snake(s),
        next_step_spec(s.body.last(), s.direction) == Some(p),
        s.body.contains(p),
    ensures
        s.treat != Some(p),
        move_spec(s) == Err::<SnakeModel, StepError>(StepError::SelfCollision),
{
}

/// A placed treat never lies on an occupied body cell.
pub proof fn lemma_treat_off_body(s: SnakeModel)
    requires
        wf_snake(s),
        s.treat is Some,
    ensures
        !s.body.contains(s.treat->Some_0),
{
}

/// Of any `divisor(d)` consecutive counter values, exactly one passes the
/// difficulty gate, so exactly one simulation step occurs per that many
/// ticks.
pub proof fn lemma_difficulty_gate(c: int, d: Difficulty)
    requires
        0 <= c,
    ensures
        exists|k: int|
            0 <= k < divisor(d) && #[trigger] ((c + k) % (divisor(d) as int)) == 0,
        forall|k1: int, k2: int|
            0 <= k1 < divisor(d) && 0 <= k2 < divisor(d) && #[trigger] ((c + k1) % (divisor(
                d,
            ) as int)) == 0 && #[trigger] ((c + k2) % (divisor(d) as int)) == 0 ==> k1 == k2,
{
    let n = divisor(d) as int;
    assert(n == 3 || n == 5 || n == 10);
    vstd::arithmetic::div_mod::lemma_fundamental_div_mod(c, n);
    let k0 = if c % n == 0 {
        0int
    } else {
        n - c % n
    };
    assert((c + k0) % n == 0) by {
        if c % n == 0 {
            vstd::arithmetic::div_mod::lemma_fundamental_div_mod_converse(c, n, c / n, 0);
        } else {
            vstd::arithmetic::div_mod::lemma_fundamental_div_mod_converse(c + k0, n, c / n + 1, 0);
        }
    }
    assert(0 <= k0 < n && (c + k0) % n == 0);
    assert forall|k1: int, k2: int|
        0 <= k1 < n && 0 <= k2 < n && #[trigger] ((c + k1) % n) == 0 && #[trigger] ((c + k2)
            % n) == 0 implies k1 == k2 by {
        vstd::arithmetic::div_mod::lemma_fundamental_div_mod(c + k1, n);
        vstd::arithmetic::div_mod::lemma_fundamental_div_mod(c + k2, n);
        let q1 = (c + k1) / n;
        let q2 = (c + k2) / n;
        assert(k2 - k1 == n * (q2 - q1)) by (nonlinear_arith)
            requires
                c + k1 == q1 * n,
                c + k2 == q2 * n,
        ;
        assert(-n < n * (q2 - q1) < n);
        assert(q2 - q1 == 0) by (nonlinear_arith)
            requires
                n > 0,
                -n < n * (q2 - q1) < n,
        ;
    }
}

/// Mathematical state of a game: the snake, the difficulty, the tick
/// counter, the buffered direction request, and the terminal flag.
#[verifier::ext_equal]
pub ghost struct GameModel {
    pub difficulty: Difficulty,
    pub counter: u32,
    pub snake: SnakeModel,
    pub game_over: bool,
    pub next_move: Option<Direction>,
}

/// What one qualifying simulation step does, for the treat state `t` that
/// placement established: the pending turn is applied, the snake moves,
/// and either the new frame is rendered or the game ends with its message.
pub open spec fn sim_outcome(
    g0: GameModel,
    t: Option<Position>,
    g1: GameModel,
    w0: WriterModel,
    w1: WriterModel,
) -> bool {
    let s2 = apply_pending(with_treat(g0.snake, t), g0.next_move);
    match move_spec(s2) {
        Ok(s3) => {
            &&& g1.snake == s3
            &&& !g1.game_over
            &&& w1 == full_screen_model(w0, frame_image(s3))
        },
        Err(e) => {
            &&& g1.snake == s2
            &&& g1.game_over
            &&& w1 == after_bytes(w0, message_screen(sanitized(message_bytes(e))))
        },
    }
}

/// The game: a snake, a difficulty, a tick counter, a buffered direction
/// request, and the terminal flag. Advanced only by `refresh_frame` and
/// `accept_keyboard_input`.
pub struct Game {
    difficulty: Difficulty,
    counter: u32,
    snake: Snake,
    game_over: bool,
    next_move: Option<Direction>,
}

impl View for Game {
    type V = GameModel;

    closed spec fn view(&self) -> GameModel {
        GameModel {
            difficulty: self.difficulty,
            counter: self.counter,
            snake: self.snake@,
            game_over: self.game_over,
            next_move: self.next_move,
        }
    }
}

impl Game {
    /// The game's invariant: a well-formed snake, and a treat only while
    /// the snake is below the maximum length (the growth-gating rule).
    pub closed spec fn wf(&self) -> bool {
        &&& self.snake.wf()
        &&& (self.snake@.treat is Some ==> self.snake@.body.len() < MAX_SNAKE_LENGTH)
    }

    /// The invariant implies the model-level snake invariant.
    pub proof fn lemma_wf_model(&self)
        requires
            self.wf(),
        ensures
            wf_snake(self@.snake),
            self@.snake.treat is Some ==> self@.snake.body.len() < MAX_SNAKE_LENGTH,
    {
    }

    /// A new game at the given difficulty, with the starting snake.
    pub fn with_difficulty(difficulty: Difficulty) -> (g: Game)
        ensures
            g.wf(),
            g@.difficulty == difficulty,
            g@.counter == 0,
            g@.snake == initial_snake(),
            !g@.game_over,
            g@.next_move is None,
    {
        Game { difficulty, counter: 0, snake: Snake::new(), game_over: false, next_move: None }
    }

    /// A new game: hard difficulty, the starting snake, counter at zero.
    pub fn new() -> (g: Game)
        ensures
            g.wf(),
            g@.difficulty == Difficulty::Hard,
            g@.counter == 0,
            g@.snake == initial_snake(),
            !g@.game_over,
            g@.next_move is None,
    {
        Game::with_difficulty(Difficulty::Hard)
    }

    /// Whether the game has ended.
    pub fn game_over(&self) -> (r: bool)
        ensures
            r == self@.game_over,
    {
        self.game_over
    }

    /// The current tick counter.
    pub fn counter(&self) -> (r: u32)
        ensures
            r == self@.counter,
    {
        self.counter
    }

    /// The current difficulty.
    pub fn difficulty(&self) -> (r: Difficulty)
        ensures
            r == self@.difficulty,
    {
        self.difficulty
    }

    /// The snake, for observation.
    pub fn snake(&self) -> (r: &Snake)
        requires
            self.wf(),
        ensures
            r.wf(),
            r@ == self@.snake,
    {
        &self.snake
    }

    /// Stages a direction change: an arrow press overwrites the pending
    /// move (last writer wins), everything else leaves it untouched. Never
    /// touches the simulation state.
    pub fn accept_keyboard_input(&mut self, key_event: KeyEvent)
        requires
            old(self).wf(),
        ensures
            final(self).wf(),
            final(self)@.difficulty == old(self)@.difficulty,
            final(self)@.counter == old(self)@.counter,
            final(self)@.snake == old(self)@.snake,
            final(self)@.game_over == old(self)@.game_over,
            final(self)@.next_move == next_move_after(old(self)@.next_move, key_event),
    {
        if key_event.state == KeyState::Down {
            self.next_move = match key_event.code {
                KeyCode::ArrowUp => Some(Direction::Up),
                KeyCode::ArrowRight => Some(Direction::Right),
                KeyCode::ArrowDown => Some(Direction::Down),
                KeyCode::ArrowLeft => Some(Direction::Left),
                KeyCode::Other => self.next_move,
            };
        }
    }

    /// Reads and advances the tick counter (wrapping at the type's limit),
    /// returning the pre-increment value.
    fn fetch_add_counter(&mut self) -> (r: u32)
        requires
            old(self).wf(),
        ensures
            final(self).wf(),
            r == old(self)@.counter,
            final(self)@.counter == (if old(self)@.counter == u32::MAX {
                0u32
            } else {
                (old(self)@.counter + 1) as u32
            }),
            final(self)@.difficulty == old(self)@.difficulty,
            final(self)@.snake == old(self)@.snake,
            final(self)@.game_over == old(self)@.game_over,
            final(self)@.next_move == old(self)@.next_move,
    {
        let old_counter = self.counter;
        self.counter = self.counter.wrapping_add(1);
        old_counter
    }

    /// Ensures a treat exists while the snake is below the maximum length:
    /// random cells are sampled and rejected while they hit the body; if
    /// sampling finds nothing, the play field is scanned for a free cell,
    /// which must exist because the body holds at most `MAX_SNAKE_LENGTH`
    /// distinct cells.
    fn make_treat(&mut self)
        requires
            old(self).wf(),
        ensures
            final(self).wf(),
            final(self)@.difficulty == old(self)@.difficulty,
            final(self)@.counter == old(self)@.counter,
            final(self)@.game_over == old(self)@.game_over,
            final(self)@.next_move == old(self)@.next_move,
            final(self)@.snake.body == old(self)@.snake.body,
            final(self)@.snake.direction == old(self)@.snake.direction,
            treat_after(old(self)@.snake, final(self)@.snake.treat),
    {
        if self.snake.is_at_maximum_length() {
            return ;
        }
        if self.snake.treat.is_some() {
            return ;
        }
        let mut tries: u32 = 0;
        while tries < 64
            invariant
                old(self).wf(),
                self == old(self),
                old(self)@.snake.treat is None,
                old(self)@.snake.body.len() < MAX_SNAKE_LENGTH,
            decreases 64 - tries,
        {
            let random_row: u32 = rand::random::<u32>() % GAME_ROWS;
            let random_col: u32 = rand::random::<u32>() % GAME_COLUMNS;
            let position = Position(random_row, random_col);
            if !self.snake.occupies(position) {
                self.snake.treat = Some(position);
                return ;
            }
            tries = tries + 1;
        }
        let ghost body = old(self)@.snake.body;
        let ghost mut seen: Set<Position> = Set::empty();
        let mut k: u32 = 0;
        while k <= MAX_SNAKE_LENGTH
            invariant
                old(self).wf(),
                self == old(self),
                old(self)@.snake.treat is None,
                old(self)@.snake.body.len() < MAX_SNAKE_LENGTH,
                body == old(self)@.snake.body,
                0 <= k <= MAX_SNAKE_LENGTH + 1,
                seen.finite(),
                seen.len() == k,
                forall|p: Position| seen.contains(p) ==> #[trigger] body.contains(p),
                forall|j: int| 0 <= j < k ==> seen.contains(#[trigger] scan_cell(j)),
                forall|p: Position|
                    #[trigger] seen.contains(p) ==> exists|j: int|
                        0 <= j < k && p == #[trigger] scan_cell(j),
            decreases MAX_SNAKE_LENGTH + 1 - k,
        {
            let position = Position(k / GAME_COLUMNS, k % GAME_COLUMNS);
            proof {
                assert(position == scan_cell(k as int));
            }
            if !self.snake.occupies(position) {
                self.snake.treat = Some(position);
                return ;
            }
            proof {
                assert forall|j: int| 0 <= j < k implies scan_cell(j) != scan_cell(
                    k as int,
                ) by {
                    lemma_scan_cell_injective(j, k as int);
                }
                assert(!seen.contains(position));
                seen = seen.insert(position);
            }
            k = k + 1;
        }
        proof {
            assert(seen.len() == MAX_SNAKE_LENGTH + 1);
            assert(seen.subset_of(body.to_set()));
            body.lemma_cardinality_of_set();
            vstd::set_lib::lemma_len_subset(seen, body.to_set());
            assert(false);
        }
    }

    /// Renders the current frame — border, head glyph, treat, body — and
    /// replaces the whole grid with it.
    fn print(&self, writer: &mut Writer)
        requires
            self.wf(),
            old(writer).wf(),
        ensures
            final(writer).wf(),
            final(writer)@ == full_screen_model(old(writer)@, frame_image(self@.snake)),
    {
        let snake_head = self.snake.head();
        let mut image: Vec<u8> = Vec::new();
        let mut idx: usize = 0;
        while idx < crate::vga_buffer::BUFFER_CELLS
            invariant
                self.wf(),
                snake_head == self@.snake.body.last(),
                0 <= idx <= crate::vga_buffer::BUFFER_CELLS,
                image@.len() == idx,
                forall|i: int|
                    0 <= i < idx ==> image@[i] == frame_byte(
                        self@.snake,
                        i / crate::BUFFER_WIDTH as int,
                        i % crate::BUFFER_WIDTH as int,
                    ),
            decreases crate::vga_buffer::BUFFER_CELLS - idx,
        {
            let row = idx / crate::BUFFER_WIDTH;
            let col = idx % crate::BUFFER_WIDTH;
            let byte: u8 = if row == 0 || row == crate::BUFFER_HEIGHT - 1 || col == 0 || col
                == crate::BUFFER_WIDTH - 1 {
                35
            } else {
                let position = Position((row - 1) as u32, (col - 1) as u32);
                if position == snake_head {
                    match self.snake.direction() {
                        Direction::Right => 62,
                        Direction::Down => 118,
                        Direction::Left => 60,
                        Direction::Up => 94,
                    }
                } else if self.snake.has_treat(position) {
                    120
                } else if self.snake.occupies(position) {
                    43
                } else {
                    32
                }
            };
            image.push(byte);
            idx = idx + 1;
        }
        proof {
            assert(image@ =~= frame_image(self@.snake));
        }
        writer.write_full_screen(&image);
    }

    /// Writes the terminal message screen through the scrolling text path:
    /// blank lines, the message centered on an 80-column line, and blank
    /// lines below it.
    fn print_msg(writer: &mut Writer, msg: &str)
        requires
            old(writer).wf(),
        ensures
            final(writer).wf(),
            final(writer)@ == after_bytes(old(writer)@, message_screen(sanitized(msg.spec_bytes()))),
    {
        let mut i: usize = 0;
        while i < 25
            invariant
                old(writer).wf(),
                0 <= i <= 25,
                writer.wf(),
                writer@ == after_bytes(old(writer)@, repeat_byte(10, i as nat)),
            decreases 25 - i,
        {
            proof {
                crate::vga_buffer::lemma_after_bytes_push(
                    old(writer)@,
                    repeat_byte(10, i as nat),
                    10,
                );
                assert(repeat_byte(10, (i + 1) as nat) =~= repeat_byte(10, i as nat).push(10));
            }
            writer.write_byte(10);
            i = i + 1;
        }
        let ghost part1 = repeat_byte(10, 25);
        let len = msg.as_bytes().len();
        proof {
            assert(len == msg.spec_bytes().len());
        }
        let left: usize = if len < 80 {
            (80 - len) / 2
        } else {
            0
        };
        let mut j: usize = 0;
        while j < left
            invariant
                old(writer).wf(),
                part1 == repeat_byte(10u8, 25nat),
                0 <= j <= left,
                writer.wf(),
                writer@ == after_bytes(old(writer)@, part1 + repeat_byte(32, j as nat)),
            decreases left - j,
        {
            proof {
                crate::vga_buffer::lemma_after_bytes_push(
                    old(writer)@,
                    part1 + repeat_byte(32, j as nat),
                    32,
                );
                assert((part1 + repeat_byte(32, (j + 1) as nat)) =~= (part1 + repeat_byte(
                    32,
                    j as nat,
                )).push(32));
            }
            writer.write_byte(32);
            j = j + 1;
        }
        let ghost part2 = part1 + repeat_byte(32, left as nat);
        let ghost sani = sanitized(msg.spec_bytes());
        proof {
            crate::vga_buffer::lemma_after_bytes_concat(old(writer)@, part2, sani);
        }
        writer.write_string(msg);
        let ghost part3 = part2 + sani;
        let right: usize = if len < 80 {
            80 - len - left
        } else {
            0
        };
        let mut j2: usize = 0;
        while j2 < right
            invariant
                old(writer).wf(),
                part3 == part2 + sani,
                0 <= j2 <= right,
                writer.wf(),
                writer@ == after_bytes(old(writer)@, part3 + repeat_byte(32, j2 as nat)),
            decreases right - j2,
        {
            proof {
                crate::vga_buffer::lemma_after_bytes_push(
                    old(writer)@,
                    part3 + repeat_byte(32, j2 as nat),
                    32,
                );
                assert((part3 + repeat_byte(32, (j2 + 1) as nat)) =~= (part3 + repeat_byte(
                    32,
                    j2 as nat,
                )).push(32));
            }
            writer.write_byte(32);
            j2 = j2 + 1;
        }
        let ghost part4 = part3 + repeat_byte(32, right as nat);
        let mut i2: usize = 0;
        while i2 < 13
            invariant
                old(writer).wf(),
                part4 == part3 + repeat_byte(32u8, right as nat),
                part3 == part2 + sani,
                part2 == part1 + repeat_byte(32u8, left as nat),
                part1 == repeat_byte(10u8, 25nat),
                0 <= i2 <= 13,
                writer.wf(),
                writer@ == after_bytes(old(writer)@, part4 + repeat_byte(10, i2 as nat)),
            decreases 13 - i2,
        {
            proof {
                crate::vga_buffer::lemma_after_bytes_push(
                    old(writer)@,
                    part4 + repeat_byte(10, i2 as nat),
                    10,
                );
                assert((part4 + repeat_byte(10, (i2 + 1) as nat)) =~= (part4 + repeat_byte(
                    10,
                    i2 as nat,
                )).push(10));
            }
            writer.write_byte(10);
            i2 = i2 + 1;
        }
        proof {
            assert(sani.len() == msg.spec_bytes().len());
            assert(part4 + repeat_byte(10, 13) =~= message_screen(sani)) by {
                if sani.len() >= 80 {
                    assert(left == 0 && right == 0);
                    assert(centered(sani) =~= sani);
                } else {
                    assert(centered(sani) =~= repeat_byte(32, left as nat) + sani + repeat_byte(
                        32,
                        right as nat,
                    ));
                }
            }
        }
    }

    /// One timer tick. The counter always advances; a simulation step runs
    /// only while the game is not over and the pre-increment counter is a
    /// multiple of the difficulty divisor. A qualifying step places a treat
    /// if needed, applies the pending turn, moves the snake, and either
    /// renders the new frame or ends the game with its terminal message.
    pub fn refresh_frame(&mut self, writer: &mut Writer)
        requires
            old(self).wf(),
            old(writer).wf(),
        ensures
            final(self).wf(),
            final(writer).wf(),
            final(self)@.difficulty == old(self)@.difficulty,
            final(self)@.counter == (if old(self)@.counter == u32::MAX {
                0u32
            } else {
                (old(self)@.counter + 1) as u32
            }),
            if old(self)@.game_over || old(self)@.counter % divisor(old(self)@.difficulty)
                != 0 {
                &&& final(self)@.snake == old(self)@.snake
                &&& final(self)@.game_over == old(self)@.game_over
                &&& final(self)@.next_move == old(self)@.next_move
                &&& final(writer)@ == old(writer)@
            } else {
                &&& final(self)@.next_move is None
                &&& exists|t: Option<Position>|
                    #[trigger] treat_after(old(self)@.snake, t) && sim_outcome(
                        old(self)@,
                        t,
                        final(self)@,
                        old(writer)@,
                        final(writer)@,
                    )
            },
    {
        let counter = self.fetch_add_counter();
        if counter % self.difficulty.as_u32() == 0 && !self.game_over {
            self.make_treat();
            let ghost t = self.snake@.treat;
            if let Some(direction) = self.next_move {
                self.snake.turn(direction);
            }
            proof {
                assert(self.snake@ =~= apply_pending(
                    with_treat(old(self)@.snake, t),
                    old(self)@.next_move,
                ));
            }
            match self.snake.move_snake() {
                Ok(()) => {
                    self.print(writer);
                },
                Err(e) => {
                    self.game_over = true;
                    Game::print_msg(writer, message(e));
                },
            }
            self.next_move = None;
            proof {
                assert(treat_after(old(self)@.snake, t));
                assert(sim_outcome(old(self)@, t, self@, old(writer)@, writer@));
            }
        }
    }
}

} // verus!
