//! The worker's frame of reference: positions on the grid, the four
//! orientations, the four relative moves, and the saturating visit history.
//!
//! Orientation is tracked: `Back`, `Left` and `Right` turn the worker, `Front`
//! never does. The same table drives candidate positions and applied moves.

use vstd::prelude::*;
use std::collections::HashMap;

verus! {

broadcast use vstd::std_specs::hash::group_hash_axioms;

/// A cell of the grid, relative to the worker's spawn point at `(0, 0)`.
#[derive(Debug, Clone, Copy, PartialEq, Eq, Hash, Structural)]
pub struct Position {
    pub x: i32,
    pub y: i32,
}

/// A position of the unbounded grid: `(x, y)`.
pub type Cell = (int, int);

impl View for Position {
    type V = Cell;

    open spec fn view(&self) -> Cell {
        (self.x as int, self.y as int)
    }
}

/// Whether a cell of the unbounded grid can be held in a `Position`.
pub open spec fn representable(c: Cell) -> bool {
    &&& i32::MIN <= c.0 <= i32::MAX
    &&& i32::MIN <= c.1 <= i32::MAX
}

impl Position {
    pub fn new(x: i32, y: i32) -> (p: Self)
        ensures
            p.x == x,
            p.y == y,
            p@ == (x as int, y as int),
    {
        Self { x, y }
    }
}

/// The part of a worker's state that is saved between sessions.
#[derive(Debug, Clone, Copy, PartialEq, Eq, Structural)]
pub struct SavedState {
    pub position: Position,
}

/// The absolute heading of the worker.
#[derive(Debug, Clone, Copy, PartialEq, Eq, Hash, Structural)]
pub enum Orientation {
    North,
    East,
    South,
    West,
}

/// A move relative to the worker's heading.
#[derive(Debug, Clone, Copy, PartialEq, Eq, Hash, Structural)]
pub enum Direction {
    Front,
    Back,
    Left,
    Right,
}

impl Orientation {
    /// The unit step taken when walking straight ahead with this heading.
    /// North is towards smaller `y`, east towards larger `x`.
    pub open spec fn heading(self) -> Cell {
        match self {
            Orientation::North => (0, -1),
            Orientation::East => (1, 0),
            Orientation::South => (0, 1),
            Orientation::West => (-1, 0),
        }
    }

    /// A quarter turn clockwise.
    pub open spec fn clockwise(self) -> Orientation {
        match self {
            Orientation::North => Orientation::East,
            Orientation::East => Orientation::South,
            Orientation::South => Orientation::West,
            Orientation::West => Orientation::North,
        }
    }

    /// The heading after a move in direction `d`: `Front` keeps it, `Right`
    /// is a quarter turn clockwise, `Back` a half turn, `Left` three quarters.
    pub open spec fn turned(self, d: Direction) -> Orientation {
        match d {
            Direction::Front => self,
            Direction::Right => self.clockwise(),
            Direction::Back => self.clockwise().clockwise(),
            Direction::Left => self.clockwise().clockwise().clockwise(),
        }
    }

    /// Executable form of [`Orientation::turned`].
    pub fn turn(self, d: Direction) -> (o: Orientation)
        ensures
            o == self.turned(d),
    {
        match d {
            Direction::Front => self,
            Direction::Right => match self {
                Orientation::North => Orientation::East,
                Orientation::East => Orientation::South,
                Orientation::South => Orientation::West,
                Orientation::West => Orientation::North,
            },
            Direction::Back => match self {
                Orientation::North => Orientation::South,
                Orientation::East => Orientation::West,
                Orientation::South => Orientation::North,
                Orientation::West => Orientation::East,
            },
            Direction::Left => match self {
                Orientation::North => Orientation::West,
                Orientation::East => Orientation::North,
                Orientation::South => Orientation::East,
                Orientation::West => Orientation::South,
            },
        }
    }
}

impl Direction {
    /// The word that names this direction on the wire.
    pub open spec fn name(self) -> Seq<char> {
        match self {
            Direction::Front => "Front"@,
            Direction::Back => "Back"@,
            Direction::Left => "Left"@,
            Direction::Right => "Right"@,
        }
    }

    /// The direction that a word names, if it names one.
    pub open spec fn named(word: Seq<char>) -> Option<Direction> {
        if word == "Front"@ {
            Some(Direction::Front)
        } else if word == "Back"@ {
            Some(Direction::Back)
        } else if word == "Left"@ {
            Some(Direction::Left)
        } else if word == "Right"@ {
            Some(Direction::Right)
        } else {
            None
        }
    }

    /// The direction that undoes this one while the heading is kept.
    pub open spec fn inverse(self) -> Direction {
        match self {
            Direction::Front => Direction::Back,
            Direction::Back => Direction::Front,
            Direction::Left => Direction::Right,
            Direction::Right => Direction::Left,
        }
    }

    /// Executable form of [`Direction::inverse`].
    pub fn opposite(self) -> (d: Direction)
        ensures
            d == self.inverse(),
    {
        match self {
            Direction::Front => Direction::Back,
            Direction::Back => Direction::Front,
            Direction::Left => Direction::Right,
            Direction::Right => Direction::Left,
        }
    }

    /// Executable form of [`Direction::name`].
    pub fn as_str(self) -> (word: &'static str)
        ensures
            word@ == self.name(),
    {
        match self {
            Direction::Front => "Front",
            Direction::Back => "Back",
            Direction::Left => "Left",
            Direction::Right => "Right",
        }
    }

    /// Executable form of [`Direction::named`].
    pub fn parse(word: &str) -> (d: Option<Direction>)
        ensures
            d == Direction::named(word@),
    {
        if word.eq("Front") {
            Some(Direction::Front)
        } else if word.eq("Back") {
            Some(Direction::Back)
        } else if word.eq("Left") {
            Some(Direction::Left)
        } else if word.eq("Right") {
            Some(Direction::Right)
        } else {
            None
        }
    }
}

/// Every direction is the one that its own name names.
pub proof fn lemma_name_round_trip(d: Direction)
    ensures
        Direction::named(d.name()) == Some(d),
{
    reveal_strlit("Front");
    reveal_strlit("Back");
    reveal_strlit("Left");
    reveal_strlit("Right");
    assert("Back"@.len() == 4);
    assert("Left"@.len() == 4);
    assert("Front"@.len() == 5);
    assert("Right"@.len() == 5);
    assert("Front"@[0] == 'F');
    assert("Right"@[0] == 'R');
    assert("Back"@[0] == 'B');
    assert("Left"@[0] == 'L');
}

/// The cell reached from `from` by one move in direction `d` while heading
/// `o`: one step along the heading that the move turns the worker to.
pub open spec fn step(from: Cell, o: Orientation, d: Direction) -> Cell {
    let h = o.turned(d).heading();
    (from.0 + h.0, from.1 + h.1)
}

/// The cell reached by an optional move: a word that names no direction
/// moves nowhere.
pub open spec fn step_opt(from: Cell, o: Orientation, d: Option<Direction>) -> Cell {
    match d {
        Some(d) => step(from, o, d),
        None => from,
    }
}

/// A worker with room around it can move in every direction.
pub proof fn lemma_room_to_move(w: Walker, d: Direction)
    requires
        w.has_room(),
    ensures
        representable(step(w.position, w.orientation, d)),
{
}

/// Moving in a direction and then in its inverse, with the heading kept,
/// returns to the cell of departure, for all four directions and all four
/// orientations.
pub proof fn lemma_step_round_trip(from: Cell, o: Orientation, d: Direction)
    ensures
        step(step(from, o, d), o, d.inverse()) == from,
{
}

/// How often a cell was visited according to `history`; a cell that the
/// history does not hold was never visited.
pub open spec fn visits(history: Map<Cell, u8>, c: Cell) -> nat {
    if history.contains_key(c) {
        history[c] as nat
    } else {
        0
    }
}

/// The count that follows `count`: one more, held at the maximum of `u8`.
pub open spec fn saturating_next(count: nat) -> u8 {
    if count < u8::MAX {
        (count + 1) as u8
    } else {
        u8::MAX
    }
}

/// The history after one more visit to `c`.
pub open spec fn visited_once_more(history: Map<Cell, u8>, c: Cell) -> Map<Cell, u8> {
    history.insert(c, saturating_next(visits(history, c)))
}

/// One more visit never lowers the count of any cell, raises the count of the
/// visited cell by one until it reaches the maximum of `u8`, and never takes a
/// count beyond that maximum.
pub proof fn lemma_visit_counts_grow(history: Map<Cell, u8>, c: Cell, other: Cell)
    ensures
        visits(history, other) <= visits(visited_once_more(history, c), other) <= u8::MAX,
        visits(visited_once_more(history, c), c) == if visits(history, c) < u8::MAX {
            visits(history, c) + 1
        } else {
            u8::MAX as nat
        },
        other != c ==> visits(visited_once_more(history, c), other) == visits(history, other),
{
}

/// The number under which the visit history files a representable cell.
spec fn slot(c: Cell) -> int {
    (c.0 + 0x8000_0000) * 0x1_0000_0000 + (c.1 + 0x8000_0000)
}

proof fn lemma_slot_injective(a: Cell, b: Cell)
    requires
        representable(a),
        representable(b),
        slot(a) == slot(b),
    ensures
        a == b,
{
}

/// Visit counters by position. A counter starts at zero, grows by one per
/// visit, stays at 255 once there, and is never removed.
pub struct VisitHistory {
    counts: HashMap<u64, u8>,
}

impl View for VisitHistory {
    type V = Map<Cell, u8>;

    closed spec fn view(&self) -> Map<Cell, u8> {
        Map::new(
            |c: Cell| representable(c) && self.counts@.contains_key(slot(c) as u64),
            |c: Cell| self.counts@[slot(c) as u64],
        )
    }
}

impl VisitHistory {
    /// The history of a worker that has visited nothing.
    pub fn new() -> (history: Self)
        ensures
            history@ == Map::<Cell, u8>::empty(),
    {
        let history = VisitHistory { counts: HashMap::new() };
        assert(history@ =~= Map::<Cell, u8>::empty());
        history
    }

    fn slot_of(pos: &Position) -> (k: u64)
        ensures
            k == slot(pos@),
    {
        let column: u64 = (pos.x as i64 + 0x8000_0000) as u64;
        let row: u64 = (pos.y as i64 + 0x8000_0000) as u64;
        column * 0x1_0000_0000 + row
    }

    /// The visit count of `pos`.
    pub fn count(&self, pos: &Position) -> (n: u8)
        ensures
            n == visits(self@, pos@),
    {
        let k: u64 = Self::slot_of(pos);
        match self.counts.get(&k) {
            Some(n) => *n,
            None => 0,
        }
    }

    /// The visit count of the cell `(x, y)`, which need not be representable:
    /// a cell outside the range of `Position` was never visited.
    pub fn count_at(&self, x: i64, y: i64) -> (n: u8)
        ensures
            n == visits(self@, (x as int, y as int)),
    {
        if -0x8000_0000 <= x && x <= 0x7fff_ffff && -0x8000_0000 <= y && y <= 0x7fff_ffff {
            let pos = Position { x: x as i32, y: y as i32 };
            self.count(&pos)
        } else {
            0
        }
    }

    /// Counts one more visit to `pos`, saturating at 255.
    pub fn record(&mut self, pos: &Position)
        ensures
            final(self)@ == visited_once_more(old(self)@, pos@),
            forall|c: Cell| visits(old(self)@, c) <= #[trigger] visits(final(self)@, c) <= u8::MAX,
    {
        let k: u64 = Self::slot_of(pos);
        let seen: u8 = self.count(pos);
        let next: u8 = if seen < u8::MAX {
            seen + 1
        } else {
            seen
        };
        self.counts.insert(k, next);
        proof {
            assert forall|c: Cell| representable(c) && slot(c) as u64 == k implies c == pos@ by {
                lemma_slot_injective(c, pos@);
            }
            assert(self@ =~= visited_once_more(old(self)@, pos@));
        }
    }
}

/// The navigation state of one worker, as the contracts see it.
pub struct Walker {
    pub position: Cell,
    pub orientation: Orientation,
    pub visits: Map<Cell, u8>,
    pub last_direction: Option<Seq<char>>,
}

impl Walker {
    /// Whether each of the four cells next to the worker can be held in a
    /// `Position`.
    pub open spec fn has_room(self) -> bool {
        &&& i32::MIN < self.position.0 < i32::MAX
        &&& i32::MIN < self.position.1 < i32::MAX
    }

    /// The state after a move in direction `d`, or after a word that names no
    /// direction (`None`): the worker stands on the cell reached, faces the
    /// heading that the move turns it to, and that cell has one more visit.
    pub open spec fn after_move(self, d: Option<Direction>) -> Walker {
        let target = step_opt(self.position, self.orientation, d);
        Walker {
            position: target,
            orientation: match d {
                Some(d) => self.orientation.turned(d),
                None => self.orientation,
            },
            visits: visited_once_more(self.visits, target),
            last_direction: self.last_direction,
        }
    }
}

/// The state that one worker owns: where it stands, which way it faces, how
/// often it has been on each cell, and the direction it chose last.
pub struct PlayerState {
    pub position: Position,
    pub visited: VisitHistory,
    pub last_direction: Option<&'static str>,
    pub orientation: Orientation,
}

impl View for PlayerState {
    type V = Walker;

    open spec fn view(&self) -> Walker {
        Walker {
            position: self.position@,
            orientation: self.orientation,
            visits: self.visited@,
            last_direction: match self.last_direction {
                Some(word) => Some(word@),
                None => None,
            },
        }
    }
}

impl PlayerState {
    /// A worker at its spawn point, facing north, with an empty history.
    pub fn new() -> (state: Self)
        ensures
            state@ == (Walker {
                position: (0, 0),
                orientation: Orientation::North,
                visits: Map::<Cell, u8>::empty(),
                last_direction: None,
            }),
    {
        PlayerState {
            position: Position::new(0, 0),
            visited: VisitHistory::new(),
            last_direction: None,
            orientation: Orientation::North,
        }
    }

    /// Whether each of the four cells next to the worker can be held in a
    /// `Position`, so that every move can be applied.
    pub fn has_room(&self) -> (room: bool)
        ensures
            room == self@.has_room(),
    {
        -0x8000_0000 < self.position.x && self.position.x < 0x7fff_ffff && -0x8000_0000
            < self.position.y && self.position.y < 0x7fff_ffff
    }

    /// Whether `movement` leads from the current position to a cell that a
    /// `Position` can hold.
    pub fn can_move(&self, movement: &str) -> (ok: bool)
        ensures
            ok == representable(
                step_opt(self.position@, self.orientation, Direction::named(movement@)),
            ),
    {
        match Direction::parse(movement) {
            None => true,
            Some(d) => {
                let (x, y) = self.target(d);
                -0x8000_0000 <= x && x <= 0x7fff_ffff && -0x8000_0000 <= y && y <= 0x7fff_ffff
            },
        }
    }

    /// The coordinates of the cell that a move in direction `d` leads to.
    pub fn target(&self, d: Direction) -> (c: (i64, i64))
        ensures
            (c.0 as int, c.1 as int) == step(self.position@, self.orientation, d),
    {
        let x: i64 = self.position.x as i64;
        let y: i64 = self.position.y as i64;
        match self.orientation.turn(d) {
            Orientation::North => (x, y - 1),
            Orientation::East => (x + 1, y),
            Orientation::South => (x, y + 1),
            Orientation::West => (x - 1, y),
        }
    }

    /// The position that `movement` (`"Front"`, `"Back"`, `"Left"` or
    /// `"Right"`) leads to from the current one; any other word leads nowhere
    /// and gives the current position back.
    pub fn compute_new_position(&self, movement: &str) -> (target: Position)
        requires
            representable(step_opt(self.position@, self.orientation, Direction::named(movement@))),
        ensures
            target@ == step_opt(self.position@, self.orientation, Direction::named(movement@)),
    {
        match Direction::parse(movement) {
            None => self.position,
            Some(d) => {
                let (x, y) = self.target(d);
                Position { x: x as i32, y: y as i32 }
            },
        }
    }

    /// Turns the worker as `movement` asks: `"Back"` reverses the heading,
    /// `"Left"` and `"Right"` turn it a quarter, `"Front"` and any other word
    /// keep it.
    pub fn update_orientation(&mut self, movement: &str)
        ensures
            final(self).orientation == match Direction::named(movement@) {
                Some(d) => old(self).orientation.turned(d),
                None => old(self).orientation,
            },
            final(self).position == old(self).position,
            final(self).visited == old(self).visited,
            final(self).last_direction == old(self).last_direction,
    {
        match Direction::parse(movement) {
            None => {},
            Some(d) => {
                self.orientation = self.orientation.turn(d);
            },
        }
    }
}

/// Applies `movement` to the worker: it steps to the cell that the move leads
/// to from its current heading, turns as the move asks, and counts one more
/// visit to the cell it now stands on. A word that names no direction moves
/// and turns nothing, and still counts a visit to the current cell.
pub fn move_player(player_state: &mut PlayerState, movement: &str)
    requires
        representable(
            step_opt(
                old(player_state).position@,
                old(player_state).orientation,
                Direction::named(movement@),
            ),
        ),
    ensures
        final(player_state)@ == old(player_state)@.after_move(Direction::named(movement@)),
        forall|c: Cell|
            visits(old(player_state)@.visits, c) <= #[trigger] visits(final(player_state)@.visits, c)
                <= u8::MAX,
{
    let target = player_state.compute_new_position(movement);
    player_state.update_orientation(movement);
    player_state.position = target;
    player_state.visited.record(&target);
}

} // verus!
