//! The navigation engine: a visit-count-biased choice among the four cells
//! next to the worker, with a short cut to the goal.

use vstd::prelude::*;
use vstd::string::StrSliceExecFns;
use crate::player::{
    lemma_visit_counts_grow, step, visited_once_more, visits, Cell, Direction, PlayerState, Walker,
};

verus! {

/// The content code that marks a cell as free to walk on.
pub const EMPTY_CELL: char = '0';

/// The content code of the goal.
pub const GOAL_CELL: char = '8';

/// The second content code of the goal.
pub const SECOND_GOAL_CELL: char = '9';

/// The content code at `row` and `col` of a cell grid, if the grid reaches
/// that far.
pub open spec fn code_at(cells: Seq<String>, row: int, col: int) -> Option<char> {
    if 0 <= row < cells.len() && 0 <= col < cells[row]@.len() {
        Some(cells[row]@[col])
    } else {
        None
    }
}

/// The content code of the cell next to the worker in direction `d`. The
/// worker stands in the middle of the grid; the first row lies in front of it.
pub open spec fn neighbour(cells: Seq<String>, d: Direction) -> Option<char> {
    match d {
        Direction::Front => code_at(cells, 0, 1),
        Direction::Back => code_at(cells, 2, 1),
        Direction::Left => code_at(cells, 1, 0),
        Direction::Right => code_at(cells, 1, 2),
    }
}

/// Whether the goal lies next to the worker in direction `d`.
pub open spec fn goal_at(cells: Seq<String>, d: Direction) -> bool {
    neighbour(cells, d) == Some(GOAL_CELL) || neighbour(cells, d) == Some(SECOND_GOAL_CELL)
}

/// Whether the cell next to the worker in direction `d` is free to walk on.
pub open spec fn open_at(cells: Seq<String>, d: Direction) -> bool {
    neighbour(cells, d) == Some(EMPTY_CELL)
}

/// The place of a direction in the order in which directions are tried.
pub open spec fn rank(d: Direction) -> nat {
    match d {
        Direction::Front => 0,
        Direction::Back => 1,
        Direction::Left => 2,
        Direction::Right => 3,
    }
}

/// The first direction, in the order of `rank`, in which the goal lies next to
/// the worker.
pub open spec fn goal_direction(cells: Seq<String>) -> Option<Direction> {
    if goal_at(cells, Direction::Front) {
        Some(Direction::Front)
    } else if goal_at(cells, Direction::Back) {
        Some(Direction::Back)
    } else if goal_at(cells, Direction::Left) {
        Some(Direction::Left)
    } else if goal_at(cells, Direction::Right) {
        Some(Direction::Right)
    } else {
        None
    }
}

/// The better of the best direction so far and `d`: `d` replaces `best` when
/// its cell is free and has strictly fewer visits.
pub open spec fn better(w: Walker, cells: Seq<String>, best: Option<Direction>, d: Direction) -> Option<
    Direction,
> {
    if open_at(cells, d) && (best matches Some(b) ==> w.cost(d) < w.cost(b)) {
        Some(d)
    } else {
        best
    }
}

/// The free direction whose cell has the fewest visits, the earliest in the
/// order of `rank` among equals; none if no cell is free.
pub open spec fn least_visited(w: Walker, cells: Seq<String>) -> Option<Direction> {
    let b0 = better(w, cells, None, Direction::Front);
    let b1 = better(w, cells, b0, Direction::Back);
    let b2 = better(w, cells, b1, Direction::Left);
    better(w, cells, b2, Direction::Right)
}

impl Walker {
    /// The visits counted for the cell that a move in direction `d` leads to.
    pub open spec fn cost(self, d: Direction) -> nat {
        visits(self.visits, step(self.position, self.orientation, d))
    }

    /// The state once the visit to the current cell has been counted.
    pub open spec fn counted(self) -> Walker {
        Walker {
            position: self.position,
            orientation: self.orientation,
            visits: visited_once_more(self.visits, self.position),
            last_direction: self.last_direction,
        }
    }

    /// The direction that the engine chooses on `cells`: towards the goal if
    /// it lies next to the worker; else to the least visited free cell, the
    /// visit to the current cell being counted; else back.
    pub open spec fn choice(self, cells: Seq<String>) -> Direction {
        match goal_direction(cells) {
            Some(d) => d,
            None => match least_visited(self.counted(), cells) {
                Some(d) => d,
                None => Direction::Back,
            },
        }
    }

    /// The state after a decision on `cells`: the current cell has one more
    /// visit, and the chosen direction is remembered unless the goal was in
    /// sight.
    pub open spec fn after_decide(self, cells: Seq<String>) -> Walker {
        Walker {
            position: self.position,
            orientation: self.orientation,
            visits: visited_once_more(self.visits, self.position),
            last_direction: if goal_direction(cells) is Some {
                self.last_direction
            } else {
                Some(self.choice(cells).name())
            },
        }
    }
}

/// Whether `d` is at least as good a choice as `e`: fewer visits, or as many
/// and not later in the order of `rank`.
pub open spec fn preferred(w: Walker, d: Direction, e: Direction) -> bool {
    w.cost(d) < w.cost(e) || (w.cost(d) == w.cost(e) && rank(d) <= rank(e))
}

/// `least_visited` picks a free direction that is preferred to every free
/// direction, and picks none exactly when no direction is free.
pub proof fn lemma_least_visited(w: Walker, cells: Seq<String>)
    ensures
        match least_visited(w, cells) {
            Some(d) => open_at(cells, d) && forall|e: Direction|
                open_at(cells, e) ==> preferred(w, d, e),
            None => forall|e: Direction| !open_at(cells, e),
        },
{
}

/// With the goal directly in front, the engine chooses `Front`, whatever the
/// visit history holds.
pub proof fn lemma_goal_in_front(w: Walker, cells: Seq<String>)
    requires
        goal_at(cells, Direction::Front),
    ensures
        w.choice(cells) == Direction::Front,
{
}

/// With the goal next to the worker, the engine moves onto it: the cell in
/// the chosen direction holds the goal.
pub proof fn lemma_goal_short_cut(w: Walker, cells: Seq<String>, d: Direction)
    requires
        goal_at(cells, d),
    ensures
        goal_at(cells, w.choice(cells)),
{
}

/// Without a goal in sight the engine walks onto a free cell whenever one is
/// next to the worker.
pub proof fn lemma_choice_is_free(w: Walker, cells: Seq<String>, d: Direction)
    requires
        goal_direction(cells) is None,
        open_at(cells, d),
    ensures
        open_at(cells, w.choice(cells)),
        preferred(w.counted(), w.choice(cells), d),
{
    lemma_least_visited(w.counted(), cells);
}

/// The state after the engine has decided and moved on each grid of `grids`
/// in turn, starting from `w`.
pub open spec fn explore(w: Walker, grids: Seq<Seq<String>>) -> Walker
    decreases grids.len(),
{
    if grids.len() == 0 {
        w
    } else {
        let before = explore(w, grids.drop_last());
        before.after_decide(grids.last()).after_move(Some(before.choice(grids.last())))
    }
}

/// The cells whose visit was counted while exploring `grids` from `w`, in
/// order: for each grid the cell on which the decision was taken, then the
/// cell that the move led to.
pub open spec fn trace(w: Walker, grids: Seq<Seq<String>>) -> Seq<Cell>
    decreases grids.len(),
{
    if grids.len() == 0 {
        Seq::empty()
    } else {
        trace(w, grids.drop_last()).push(explore(w, grids.drop_last()).position).push(
            explore(w, grids).position,
        )
    }
}

/// How often `c` occurs in `cells`.
pub open spec fn occurrences(cells: Seq<Cell>, c: Cell) -> nat
    decreases cells.len(),
{
    if cells.len() == 0 {
        0
    } else {
        occurrences(cells.drop_last(), c) + if cells.last() == c {
            1nat
        } else {
            0nat
        }
    }
}

/// `n` held at the maximum of a visit counter.
pub open spec fn saturated(n: nat) -> nat {
    if n < u8::MAX {
        n
    } else {
        u8::MAX as nat
    }
}

/// After any sequence of decisions and moves, the counter of every cell is
/// what it was at the start plus the number of times the cell occurs in the
/// trace, held at the maximum of a counter. From an empty history, and as
/// long as no cell occurs more than 255 times, each counter equals the number
/// of occurrences.
pub proof fn lemma_counters_follow_trace(w: Walker, grids: Seq<Seq<String>>, c: Cell)
    ensures
        visits(explore(w, grids).visits, c) == saturated(
            visits(w.visits, c) + occurrences(trace(w, grids), c),
        ),
        visits(w.visits, c) == 0 && occurrences(trace(w, grids), c) <= u8::MAX ==> visits(
            explore(w, grids).visits,
            c,
        ) == occurrences(trace(w, grids), c),
    decreases grids.len(),
{
    if grids.len() > 0 {
        let rest = grids.drop_last();
        let before = explore(w, rest);
        let decided = before.after_decide(grids.last());
        let after = explore(w, grids);
        lemma_counters_follow_trace(w, rest, c);
        let t0 = trace(w, rest);
        let t1 = t0.push(before.position);
        let t2 = t1.push(after.position);
        assert(t1.drop_last() == t0);
        assert(t2.drop_last() == t1);
        assert(trace(w, grids) == t2);
        assert(occurrences(t1, c) == occurrences(t0, c) + if before.position == c {
            1nat
        } else {
            0nat
        });
        assert(occurrences(t2, c) == occurrences(t1, c) + if after.position == c {
            1nat
        } else {
            0nat
        });
        assert(decided.visits == visited_once_more(before.visits, before.position));
        assert(after.visits == visited_once_more(decided.visits, after.position));
        lemma_visit_counts_grow(before.visits, before.position, c);
        lemma_visit_counts_grow(decided.visits, after.position, c);
    }
}

/// The content code at `row` and `col` of `cells`, if the grid reaches that
/// far.
pub fn cell_code(cells: &[String], row: usize, col: usize) -> (code: Option<char>)
    ensures
        code == code_at(cells@, row as int, col as int),
{
    if row < cells.len() {
        let line: &str = cells[row].as_str();
        if col < line.unicode_len() {
            Some(line.get_char(col))
        } else {
            None
        }
    } else {
        None
    }
}

/// The content code of the cell next to the worker in direction `d`.
pub fn neighbour_code(cells: &[String], d: Direction) -> (code: Option<char>)
    ensures
        code == neighbour(cells@, d),
{
    match d {
        Direction::Front => cell_code(cells, 0, 1),
        Direction::Back => cell_code(cells, 2, 1),
        Direction::Left => cell_code(cells, 1, 0),
        Direction::Right => cell_code(cells, 1, 2),
    }
}

fn sees_goal(cells: &[String], d: Direction) -> (seen: bool)
    ensures
        seen == goal_at(cells@, d),
{
    match neighbour_code(cells, d) {
        Some(code) => code == GOAL_CELL || code == SECOND_GOAL_CELL,
        None => false,
    }
}

fn is_free(cells: &[String], d: Direction) -> (free: bool)
    ensures
        free == open_at(cells@, d),
{
    match neighbour_code(cells, d) {
        Some(code) => code == EMPTY_CELL,
        None => false,
    }
}

fn cost_of(player_state: &PlayerState, d: Direction) -> (n: u8)
    ensures
        n == player_state@.cost(d),
{
    let (x, y) = player_state.target(d);
    player_state.visited.count_at(x, y)
}

fn pick_better(
    player_state: &PlayerState,
    cells: &[String],
    best: Option<Direction>,
    d: Direction,
) -> (chosen: Option<Direction>)
    ensures
        chosen == better(player_state@, cells@, best, d),
{
    if is_free(cells, d) {
        match best {
            None => Some(d),
            Some(b) => {
                if cost_of(player_state, d) < cost_of(player_state, b) {
                    Some(d)
                } else {
                    best
                }
            },
        }
    } else {
        best
    }
}

/// Decides the next move on the cell grid `cells` and returns it.
///
/// The visit to the current cell is counted first. If the goal lies next to
/// the worker, the move goes there, whatever the history holds. Otherwise the
/// move goes to the free cell with the fewest visits, the first of `Front`,
/// `Back`, `Left`, `Right` among equals, and to `Back` if no cell is free;
/// that choice is remembered as the last direction.
pub fn decide(player_state: &mut PlayerState, cells: &[String]) -> (d: Direction)
    ensures
        d == old(player_state)@.choice(cells@),
        final(player_state)@ == old(player_state)@.after_decide(cells@),
        forall|c: Cell|
            visits(old(player_state)@.visits, c) <= #[trigger] visits(final(player_state)@.visits, c)
                <= u8::MAX,
{
    let here = player_state.position;
    player_state.visited.record(&here);
    if sees_goal(cells, Direction::Front) {
        return Direction::Front;
    }
    if sees_goal(cells, Direction::Back) {
        return Direction::Back;
    }
    if sees_goal(cells, Direction::Left) {
        return Direction::Left;
    }
    if sees_goal(cells, Direction::Right) {
        return Direction::Right;
    }
    let b0 = pick_better(player_state, cells, None, Direction::Front);
    let b1 = pick_better(player_state, cells, b0, Direction::Back);
    let b2 = pick_better(player_state, cells, b1, Direction::Left);
    let b3 = pick_better(player_state, cells, b2, Direction::Right);
    let d = match b3 {
        Some(d) => d,
        None => Direction::Back,
    };
    player_state.last_direction = Some(d.as_str());
    d
}

/// Decides the next move on `cells` as [`decide`] does and returns its name:
/// `"Front"`, `"Back"`, `"Left"` or `"Right"`.
pub fn tremaux_decide_move(player_state: &mut PlayerState, cells: &[String]) -> (movement:
    &'static str)
    ensures
        movement@ == old(player_state)@.choice(cells@).name(),
        final(player_state)@ == old(player_state)@.after_decide(cells@),
        forall|c: Cell|
            visits(old(player_state)@.visits, c) <= #[trigger] visits(final(player_state)@.visits, c)
                <= u8::MAX,
{
    decide(player_state, cells).as_str()
}

/// The first direction, in the order of `rank`, whose cell is free.
pub open spec fn first_free(cells: Seq<String>) -> Option<Direction> {
    if open_at(cells, Direction::Front) {
        Some(Direction::Front)
    } else if open_at(cells, Direction::Back) {
        Some(Direction::Back)
    } else if open_at(cells, Direction::Left) {
        Some(Direction::Left)
    } else if open_at(cells, Direction::Right) {
        Some(Direction::Right)
    } else {
        None
    }
}

/// The direction that the simple heuristic chooses on `cells`: towards the
/// goal if it lies next to the worker; else to the first free cell; else
/// back. It reads no history.
pub open spec fn simple_choice(cells: Seq<String>) -> Direction {
    match goal_direction(cells) {
        Some(d) => d,
        None => match first_free(cells) {
            Some(d) => d,
            None => Direction::Back,
        },
    }
}

/// Decides the next move by the simple heuristic of the navigation mode
/// `random`, which keeps no history, and returns its name.
pub fn simple_decide_move(cells: &[String]) -> (movement: &'static str)
    ensures
        movement@ == simple_choice(cells@).name(),
{
    let d = if sees_goal(cells, Direction::Front) {
        Direction::Front
    } else if sees_goal(cells, Direction::Back) {
        Direction::Back
    } else if sees_goal(cells, Direction::Left) {
        Direction::Left
    } else if sees_goal(cells, Direction::Right) {
        Direction::Right
    } else if is_free(cells, Direction::Front) {
        Direction::Front
    } else if is_free(cells, Direction::Back) {
        Direction::Back
    } else if is_free(cells, Direction::Left) {
        Direction::Left
    } else if is_free(cells, Direction::Right) {
        Direction::Right
    } else {
        Direction::Back
    };
    d.as_str()
}

} // verus!
