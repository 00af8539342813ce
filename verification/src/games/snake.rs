//! The Snake engine: board model, turning, movement, growth and rendering.

use vstd::prelude::*;
use super::{rand_below, Context, Game, InputState, UpdateResult};
use crate::util::{idx_to_pos, pos_to_idx, index_of, position_of, valid_idx};
use crate::{DISPLAY_HEIGHT, DISPLAY_WIDTH, NUM_PIXELS};

verus! {

/// One cell of the board.
#[derive(Clone, Copy, Debug)]
pub enum SnakeTile {
    /// Nothing is here.
    Empty,
    /// A segment of the snake that stays for this many more frames.
    Snake(usize),
    /// The apple.
    Apple,
}

/// A direction of travel.
#[derive(PartialEq, Eq, Structural, Debug, Clone, Copy)]
pub enum Direction {
    Up,
    Down,
    Left,
    Right,
}

/// One session of Snake.
#[derive(Clone)]
pub struct Snake {
    gameboard: [SnakeTile; NUM_PIXELS],
    snake_length: usize,
    head_idx: usize,
    snake_dir: Option<Direction>,
}

/// The mathematical content of a session.
pub struct SnakeModel {
    /// The tiles, by linear index.
    pub board: Seq<SnakeTile>,
    /// Number of segments the snake is entitled to.
    pub length: int,
    /// Linear index of the head.
    pub head: int,
    /// The direction of travel, once one was given.
    pub dir: Option<Direction>,
}

/// Remaining life of a tile; zero for a tile that holds no segment.
pub open spec fn life(tile: SnakeTile) -> int {
    match tile {
        SnakeTile::Snake(l) => l as int,
        _ => 0,
    }
}

/// The tile one frame later, when the head did not eat.
pub open spec fn age_tile(tile: SnakeTile) -> SnakeTile {
    match tile {
        SnakeTile::Snake(l) => if l <= 1 {
            SnakeTile::Empty
        } else {
            SnakeTile::Snake((l - 1) as usize)
        },
        other => other,
    }
}

/// The board with every tile aged by one frame.
pub open spec fn aged(board: Seq<SnakeTile>) -> Seq<SnakeTile> {
    Seq::new(board.len(), |i: int| age_tile(board[i]))
}

/// The pixel value of a tile: 0 for background, 1 for the apple, 2 for the snake.
pub open spec fn pixel_of(tile: SnakeTile) -> u8 {
    match tile {
        SnakeTile::Empty => 0,
        SnakeTile::Apple => 1,
        SnakeTile::Snake(_) => 2,
    }
}

/// Whether an apple may be put on tile `i`: it is empty and not `bad`.
pub open spec fn is_free(board: Seq<SnakeTile>, bad: Option<usize>, i: int) -> bool {
    &&& 0 <= i < board.len()
    &&& board[i] is Empty
    &&& bad != Some(i as usize)
}

/// The free tiles among the first `n`, in ascending order.
pub open spec fn free_cells_upto(board: Seq<SnakeTile>, bad: Option<usize>, n: nat) -> Seq<usize>
    decreases n,
{
    if n == 0 {
        Seq::empty()
    } else {
        let rest = free_cells_upto(board, bad, (n - 1) as nat);
        if is_free(board, bad, n - 1) {
            rest.push((n - 1) as usize)
        } else {
            rest
        }
    }
}

/// The free tiles of the board, in ascending order.
pub open spec fn free_cells_of(board: Seq<SnakeTile>, bad: Option<usize>) -> Seq<usize> {
    free_cells_upto(board, bad, board.len())
}

/// `free_cells_upto` lists free tiles below `n` only, and misses none of them.
pub proof fn lemma_free_cells_upto(board: Seq<SnakeTile>, bad: Option<usize>, n: nat)
    requires
        n <= board.len() <= usize::MAX,
    ensures
        forall|k: int|
            0 <= k < free_cells_upto(board, bad, n).len() ==> {
                &&& (#[trigger] free_cells_upto(board, bad, n)[k]) < n
                &&& is_free(board, bad, free_cells_upto(board, bad, n)[k] as int)
            },
        forall|i: int|
            0 <= i < n && is_free(board, bad, i) ==> exists|k: int|
                0 <= k < free_cells_upto(board, bad, n).len() && #[trigger] free_cells_upto(
                    board,
                    bad,
                    n,
                )[k] == i,
        free_cells_upto(board, bad, n).len() <= n,
    decreases n,
{
    if n > 0 {
        let rest = free_cells_upto(board, bad, (n - 1) as nat);
        let all = free_cells_upto(board, bad, n);
        lemma_free_cells_upto(board, bad, (n - 1) as nat);
        assert forall|i: int| 0 <= i < n && is_free(board, bad, i) implies exists|k: int|
            0 <= k < all.len() && #[trigger] all[k] == i by {
            if i == n - 1 {
                assert(all[all.len() - 1] == i);
            } else {
                let k = choose|k: int| 0 <= k < rest.len() && #[trigger] rest[k] == i;
                assert(all[k] == i);
            }
        }
    }
}


/// The direction that runs against `dir`.
pub open spec fn opposite(dir: Direction) -> Direction {
    match dir {
        Direction::Up => Direction::Down,
        Direction::Down => Direction::Up,
        Direction::Left => Direction::Right,
        Direction::Right => Direction::Left,
    }
}

/// Whether the button for `dir` is held.
pub open spec fn pressed(inputs: InputState, dir: Direction) -> bool {
    match dir {
        Direction::Up => inputs.up,
        Direction::Down => inputs.down,
        Direction::Left => inputs.left,
        Direction::Right => inputs.right,
    }
}

/// Whether the snake, travelling in `cur`, takes up `dir`: its button is held
/// and it does not run against `cur`.
pub open spec fn accepts(cur: Option<Direction>, inputs: InputState, dir: Direction) -> bool {
    pressed(inputs, dir) && cur != Some(opposite(dir))
}

/// The direction of travel after the buttons were read: the first accepted
/// one in the order up, down, right, left; the present one where none is.
pub open spec fn turn(cur: Option<Direction>, inputs: InputState) -> Option<Direction> {
    if accepts(cur, inputs, Direction::Up) {
        Some(Direction::Up)
    } else if accepts(cur, inputs, Direction::Down) {
        Some(Direction::Down)
    } else if accepts(cur, inputs, Direction::Right) {
        Some(Direction::Right)
    } else if accepts(cur, inputs, Direction::Left) {
        Some(Direction::Left)
    } else {
        cur
    }
}

/// The position one step from `pos` in direction `dir`, on the torus.
pub open spec fn next_pos(pos: (int, int), dir: Direction) -> (int, int) {
    match dir {
        Direction::Up => (pos.0, (pos.1 + DISPLAY_HEIGHT - 1) % (DISPLAY_HEIGHT as int)),
        Direction::Down => (pos.0, (pos.1 + 1) % (DISPLAY_HEIGHT as int)),
        Direction::Left => ((pos.0 + DISPLAY_WIDTH - 1) % (DISPLAY_WIDTH as int), pos.1),
        Direction::Right => ((pos.0 + 1) % (DISPLAY_WIDTH as int), pos.1),
    }
}

/// The index one step from index `head` in direction `dir`, on the torus.
pub open spec fn next_head(head: int, dir: Direction) -> int {
    index_of(next_pos(position_of(head), dir))
}

/// The direction of travel after the buttons were read.
pub fn resolve_direction(cur: Option<Direction>, inputs: &InputState) -> (dir: Option<Direction>)
    ensures
        dir == turn(cur, *inputs),
{
    match cur {
        None => {
            if inputs.up {
                Some(Direction::Up)
            } else if inputs.down {
                Some(Direction::Down)
            } else if inputs.right {
                Some(Direction::Right)
            } else if inputs.left {
                Some(Direction::Left)
            } else {
                None
            }
        },
        Some(dir) => {
            if inputs.up && dir != Direction::Down {
                Some(Direction::Up)
            } else if inputs.down && dir != Direction::Up {
                Some(Direction::Down)
            } else if inputs.right && dir != Direction::Left {
                Some(Direction::Right)
            } else if inputs.left && dir != Direction::Right {
                Some(Direction::Left)
            } else {
                Some(dir)
            }
        },
    }
}

/// The index one step from index `head` in direction `dir`, wrapping around
/// the edges of the grid.
pub fn next_head_idx(head: usize, dir: Direction) -> (next: usize)
    requires
        valid_idx(head as int),
    ensures
        next == next_head(head as int, dir),
        valid_idx(next as int),
{
    let cur_head_pos = idx_to_pos(head);
    let next_head_pos = match dir {
        Direction::Up => (
            cur_head_pos.0,
            if cur_head_pos.1 == 0 {
                DISPLAY_HEIGHT - 1
            } else {
                cur_head_pos.1 - 1
            },
        ),
        Direction::Down => (
            cur_head_pos.0,
            if cur_head_pos.1 == DISPLAY_HEIGHT - 1 {
                0
            } else {
                cur_head_pos.1 + 1
            },
        ),
        Direction::Left => (
            if cur_head_pos.0 == 0 {
                DISPLAY_WIDTH - 1
            } else {
                cur_head_pos.0 - 1
            },
            cur_head_pos.1,
        ),
        Direction::Right => (
            if cur_head_pos.0 == DISPLAY_WIDTH - 1 {
                0
            } else {
                cur_head_pos.0 + 1
            },
            cur_head_pos.1,
        ),
    };
    pos_to_idx(next_head_pos)
}

/// A turn never reverses the snake: whatever the buttons, the direction
/// after them does not run against the direction before them. Where only the
/// button against the present direction is held, the direction stays.
pub proof fn lemma_turn_never_reverses(dir: Direction, inputs: InputState)
    ensures
        turn(Some(dir), inputs) is Some,
        turn(Some(dir), inputs) != Some(opposite(dir)),
        (forall|other: Direction| pressed(inputs, other) ==> other == opposite(dir)) ==> turn(
            Some(dir),
            inputs,
        ) == Some(dir),
{
    if forall|other: Direction| pressed(inputs, other) ==> other == opposite(dir) {
        assert(pressed(inputs, Direction::Up) ==> Direction::Up == opposite(dir));
        assert(pressed(inputs, Direction::Down) ==> Direction::Down == opposite(dir));
        assert(pressed(inputs, Direction::Left) ==> Direction::Left == opposite(dir));
        assert(pressed(inputs, Direction::Right) ==> Direction::Right == opposite(dir));
    }
}

/// A step stays on the grid and wraps around its edges: it changes the
/// column or the row by one, modulo the width or the height, and leaves the
/// other coordinate alone. From the last column a step to the right lands in
/// column 0 of the same row.
pub proof fn lemma_next_head_wraps(head: int, dir: Direction)
    requires
        valid_idx(head),
    ensures
        valid_idx(next_head(head, dir)),
        position_of(next_head(head, dir)) == next_pos(position_of(head), dir),
        dir == Direction::Right && position_of(head).0 == DISPLAY_WIDTH - 1 ==> position_of(
            next_head(head, dir),
        ) == (0int, position_of(head).1),
        dir == Direction::Left && position_of(head).0 == 0 ==> position_of(next_head(head, dir))
            == (DISPLAY_WIDTH - 1, position_of(head).1),
        dir == Direction::Down && position_of(head).1 == DISPLAY_HEIGHT - 1 ==> position_of(
            next_head(head, dir),
        ) == (position_of(head).0, 0int),
        dir == Direction::Up && position_of(head).1 == 0 ==> position_of(next_head(head, dir)) == (
            position_of(head).0,
            DISPLAY_HEIGHT - 1,
        ),
{
}

impl SnakeModel {
    /// The state is one that play can go on from: the head carries the full
    /// length, the segments' lives are exactly the numbers from one up to the
    /// length, each on one tile, the board holds exactly one apple and is
    /// not yet full.
    pub open spec fn playable(self) -> bool {
        &&& self.board.len() == NUM_PIXELS
        &&& 0 <= self.head < NUM_PIXELS
        &&& 1 <= self.length < NUM_PIXELS
        &&& self.board[self.head] == SnakeTile::Snake(self.length as usize)
        &&& forall|i: int|
            0 <= i < NUM_PIXELS && (#[trigger] self.board[i]) is Snake ==> 1 <= life(self.board[i])
                <= self.length
        &&& forall|i: int, j: int|
            0 <= i < NUM_PIXELS && 0 <= j < NUM_PIXELS && (#[trigger] self.board[i]) is Snake
                && life(self.board[i]) == life(#[trigger] self.board[j]) ==> i == j
        &&& forall|v: int| 1 <= v <= self.length ==> #[trigger] has_life(self.board, v)
        &&& exists|a: int| single_apple(self.board, a)
    }

    /// What the frame with these buttons comes to: a loss where the snake
    /// runs into itself, a win where it eats the apple that fills the board,
    /// else play goes on.
    pub open spec fn outcome(self, inputs: InputState) -> UpdateResult {
        match turn(self.dir, inputs) {
            None => UpdateResult::Continue,
            Some(d) => match self.board[next_head(self.head, d)] {
                SnakeTile::Apple => if self.length + 1 == NUM_PIXELS {
                    UpdateResult::Win((self.length + 1) as usize)
                } else {
                    UpdateResult::Continue
                },
                SnakeTile::Snake(_) => UpdateResult::Loss(self.length as usize),
                SnakeTile::Empty => UpdateResult::Continue,
            },
        }
    }

    /// The state after the snake ate the apple on tile `n` and a new apple
    /// came to lie on tile `a`: one segment more, nothing aged.
    pub open spec fn grown(self, d: Direction, n: int, a: int) -> SnakeModel {
        SnakeModel {
            board: self.board.update(a, SnakeTile::Apple).update(
                n,
                SnakeTile::Snake((self.length + 1) as usize),
            ),
            length: self.length + 1,
            head: n,
            dir: Some(d),
        }
    }

    /// The state after the snake moved onto the empty tile `n`: every tile
    /// aged by one frame, then the head put down.
    pub open spec fn moved(self, d: Direction, n: int) -> SnakeModel {
        SnakeModel {
            board: aged(self.board).update(n, SnakeTile::Snake(self.length as usize)),
            length: self.length,
            head: n,
            dir: Some(d),
        }
    }

    /// Whether `after` is a state that the frame with these buttons may leave.
    /// All of it is determined but the tile of the new apple.
    pub open spec fn steps_to(self, inputs: InputState, after: SnakeModel) -> bool {
        match turn(self.dir, inputs) {
            None => after == self,
            Some(d) => {
                let n = next_head(self.head, d);
                match self.board[n] {
                    SnakeTile::Apple => if self.length + 1 == NUM_PIXELS {
                        after == (SnakeModel { length: self.length + 1, dir: Some(d), ..self })
                    } else {
                        exists|a: int|
                            #[trigger] is_free(self.board, Some(n as usize), a) && after
                                == self.grown(d, n, a)
                    },
                    SnakeTile::Snake(_) => after == (SnakeModel { dir: Some(d), ..self }),
                    SnakeTile::Empty => after == self.moved(d, n),
                }
            },
        }
    }

    /// The state a session starts in: a snake of one segment at column 4 of
    /// row 4, no direction, and one apple on some other tile of an otherwise
    /// empty board.
    pub open spec fn is_fresh(self) -> bool {
        &&& self.length == 1
        &&& self.dir is None
        &&& self.head == index_of((4, 4))
        &&& exists|a: int|
            0 <= a < NUM_PIXELS && a != self.head && self.board == #[trigger] fresh_board(
                self.head,
                a,
            )
    }
}

/// An empty board but for a snake of one segment on tile `head` and an apple
/// on tile `a`.
pub open spec fn fresh_board(head: int, a: int) -> Seq<SnakeTile> {
    Seq::new(NUM_PIXELS as nat, |i: int| SnakeTile::Empty).update(
        head,
        SnakeTile::Snake(1),
    ).update(a, SnakeTile::Apple)
}

/// Some tile holds a segment with exactly `v` frames to live.
pub open spec fn has_life(board: Seq<SnakeTile>, v: int) -> bool {
    exists|i: int| 0 <= i < board.len() && (#[trigger] board[i]) is Snake && life(board[i]) == v
}

/// Tile `a` holds the apple and no other tile does.
pub open spec fn single_apple(board: Seq<SnakeTile>, a: int) -> bool {
    &&& 0 <= a < board.len()
    &&& board[a] is Apple
    &&& forall|i: int| 0 <= i < board.len() && (#[trigger] board[i]) is Apple ==> i == a
}

/// The tiles that hold a segment with at most `v` frames to live.
pub open spec fn segments(board: Seq<SnakeTile>, v: int) -> Set<int> {
    Set::new(|i: int| 0 <= i < board.len() && board[i] is Snake && life(board[i]) <= v)
}

/// Where no two segments have the same life and each has at least one frame
/// to live, at most `v` segments have a life of at most `v`; exactly `v`
/// where every life from one up to `v` is on the board.
pub proof fn lemma_segments_bounded(board: Seq<SnakeTile>, v: int)
    requires
        0 <= v,
        forall|i: int| 0 <= i < board.len() && (#[trigger] board[i]) is Snake ==> 1 <= life(board[i]),
        forall|i: int, j: int|
            0 <= i < board.len() && 0 <= j < board.len() && (#[trigger] board[i]) is Snake && life(
                board[i],
            ) == life(#[trigger] board[j]) ==> i == j,
    ensures
        segments(board, v).finite(),
        segments(board, v).len() <= v,
        (forall|w: int| 1 <= w <= v ==> #[trigger] has_life(board, w)) ==> segments(board, v).len()
            == v,
    decreases v,
{
    if v == 0 {
        assert(segments(board, v) =~= Set::empty());
    } else {
        lemma_segments_bounded(board, v - 1);
        if forall|w: int| 1 <= w <= v ==> #[trigger] has_life(board, w) {
            assert(has_life(board, v));
            assert forall|w: int| 1 <= w <= v - 1 implies #[trigger] has_life(board, w) by {}
        }
        if exists|i: int| 0 <= i < board.len() && (#[trigger] board[i]) is Snake && life(board[i]) == v {
            let i = choose|i: int|
                0 <= i < board.len() && (#[trigger] board[i]) is Snake && life(board[i]) == v;
            assert(segments(board, v) =~= segments(board, v - 1).insert(i));
        } else {
            assert(segments(board, v) =~= segments(board, v - 1));
        }
    }
}

/// A playable board holds as many segments as the snake is long.
pub proof fn lemma_segment_count(m: SnakeModel)
    requires
        m.playable(),
    ensures
        segments(m.board, m.length).finite(),
        segments(m.board, m.length).len() == m.length,
        forall|i: int|
            0 <= i < NUM_PIXELS && (#[trigger] m.board[i]) is Snake ==> segments(
                m.board,
                m.length,
            ).contains(i),
{
    lemma_segments_bounded(m.board, m.length);
}

/// While the snake can still grow without filling the board, a tile other
/// than the apple's is empty.
pub proof fn lemma_free_cell_exists(m: SnakeModel, n: int)
    requires
        m.playable(),
        0 <= n < NUM_PIXELS,
        m.board[n] is Apple,
        m.length + 1 < NUM_PIXELS,
    ensures
        exists|i: int| #[trigger] is_free(m.board, Some(n as usize), i),
{
    lemma_segments_bounded(m.board, m.length);
    let occupied = segments(m.board, m.length).insert(n);
    let all = vstd::set_lib::set_int_range(0, NUM_PIXELS as int);
    vstd::set_lib::lemma_int_range(0, NUM_PIXELS as int);
    if !(exists|i: int| #[trigger] is_free(m.board, Some(n as usize), i)) {
        let a = choose|a: int| single_apple(m.board, a);
        assert forall|i: int| all.contains(i) implies occupied.contains(i) by {
            assert(!is_free(m.board, Some(n as usize), i));
            if i != n {
                assert(m.board[i] is Snake);
            }
        }
        vstd::set_lib::lemma_len_subset(all, occupied);
    }
}

/// A fresh session is one that play can go on from.
pub proof fn lemma_fresh_is_playable(m: SnakeModel)
    requires
        m.is_fresh(),
    ensures
        m.playable(),
{
    let a = choose|a: int|
        0 <= a < NUM_PIXELS && a != m.head && m.board == #[trigger] fresh_board(m.head, a);
    assert(single_apple(m.board, a));
    assert(m.board[m.head] == SnakeTile::Snake(1));
    assert(has_life(m.board, 1));
}

/// Moving onto an empty tile leaves a state that play can go on from.
pub proof fn lemma_moved_is_playable(m: SnakeModel, d: Direction, n: int)
    requires
        m.playable(),
        0 <= n < NUM_PIXELS,
        m.board[n] is Empty,
    ensures
        m.moved(d, n).playable(),
{
    let after = m.moved(d, n);
    let a = choose|a: int| single_apple(m.board, a);
    assert forall|i: int| 0 <= i < NUM_PIXELS implies (#[trigger] after.board[i]) == (if i == n {
        SnakeTile::Snake(m.length as usize)
    } else {
        age_tile(m.board[i])
    }) by {}
    assert(single_apple(after.board, a)) by {
        assert(after.board[a] == age_tile(m.board[a]));
        assert forall|i: int| 0 <= i < after.board.len() && (#[trigger] after.board[i]) is Apple implies i
            == a by {
            assert(m.board[i] is Apple);
        }
    }
    assert forall|i: int, j: int|
        0 <= i < NUM_PIXELS && 0 <= j < NUM_PIXELS && (#[trigger] after.board[i]) is Snake && life(
            after.board[i],
        ) == life(#[trigger] after.board[j]) implies i == j by {
        if i != n && j != n {
            assert(m.board[i] is Snake);
            assert(life(m.board[i]) == life(m.board[j]));
        } else if i != n {
            assert(m.board[i] is Snake);
        } else if j != n {
            assert(m.board[j] is Snake);
        }
    }
    assert forall|i: int| 0 <= i < NUM_PIXELS && (#[trigger] after.board[i]) is Snake implies 1
        <= life(after.board[i]) <= after.length by {
        if i != n {
            assert(m.board[i] is Snake);
        }
    }
    assert forall|v: int| 1 <= v <= after.length implies #[trigger] has_life(after.board, v) by {
        if v == m.length {
            assert(after.board[n] == SnakeTile::Snake(v as usize));
        } else {
            assert(has_life(m.board, v + 1));
            let i = choose|i: int|
                0 <= i < m.board.len() && (#[trigger] m.board[i]) is Snake && life(m.board[i]) == v
                    + 1;
            assert(after.board[i] == SnakeTile::Snake(v as usize));
        }
    }
}

/// Eating the apple on tile `n`, with the new apple on a free tile `a`,
/// leaves a state that play can go on from, unless the board is full.
pub proof fn lemma_grown_is_playable(m: SnakeModel, d: Direction, n: int, a: int)
    requires
        m.playable(),
        0 <= n < NUM_PIXELS,
        m.board[n] is Apple,
        m.length + 1 < NUM_PIXELS,
        is_free(m.board, Some(n as usize), a),
    ensures
        m.grown(d, n, a).playable(),
{
    let after = m.grown(d, n, a);
    let before = choose|b: int| single_apple(m.board, b);
    assert(before == n);
    assert forall|i: int| 0 <= i < NUM_PIXELS implies (#[trigger] after.board[i]) == (if i == n {
        SnakeTile::Snake((m.length + 1) as usize)
    } else if i == a {
        SnakeTile::Apple
    } else {
        m.board[i]
    }) by {}
    assert(single_apple(after.board, a)) by {
        assert forall|i: int| 0 <= i < after.board.len() && (#[trigger] after.board[i]) is Apple implies i
            == a by {
            if i != a {
                assert(m.board[i] is Apple);
            }
        }
    }
    assert forall|i: int, j: int|
        0 <= i < NUM_PIXELS && 0 <= j < NUM_PIXELS && (#[trigger] after.board[i]) is Snake && life(
            after.board[i],
        ) == life(#[trigger] after.board[j]) implies i == j by {
        if i != n && j != n {
            assert(m.board[i] is Snake);
            assert(life(m.board[i]) == life(m.board[j]));
        } else if i != n {
            assert(m.board[i] is Snake);
        } else if j != n {
            assert(j != a);
            assert(m.board[j] is Snake);
        }
    }
    assert forall|i: int| 0 <= i < NUM_PIXELS && (#[trigger] after.board[i]) is Snake implies 1
        <= life(after.board[i]) <= after.length by {
        if i != n {
            assert(m.board[i] is Snake);
        }
    }
    assert forall|v: int| 1 <= v <= after.length implies #[trigger] has_life(after.board, v) by {
        if v == m.length + 1 {
            assert(after.board[n] == SnakeTile::Snake(v as usize));
        } else {
            assert(has_life(m.board, v));
            let i = choose|i: int|
                0 <= i < m.board.len() && (#[trigger] m.board[i]) is Snake && life(m.board[i]) == v;
            assert(after.board[i] == SnakeTile::Snake(v as usize));
        }
    }
}

/// Eating grows the snake by exactly one segment and ages nothing: the head
/// goes to the apple's tile with the new length as its life, and every
/// segment that was on the board is still there with the life it had.
pub proof fn lemma_eating_grows(m: SnakeModel, inputs: InputState, after: SnakeModel)
    requires
        m.playable(),
        m.steps_to(inputs, after),
        turn(m.dir, inputs) is Some,
        m.board[next_head(m.head, turn(m.dir, inputs)->0)] is Apple,
    ensures
        after.length == m.length + 1,
        m.length + 1 < NUM_PIXELS ==> after.head == next_head(m.head, turn(m.dir, inputs)->0)
            && after.board[after.head] == SnakeTile::Snake(after.length as usize),
        forall|i: int|
            0 <= i < NUM_PIXELS && (#[trigger] m.board[i]) is Snake ==> after.board[i] == m.board[i],
{
    let d = turn(m.dir, inputs)->0;
    lemma_next_head_wraps(m.head, d);
}

/// Running into a segment loses the session with the present length as the
/// score, and leaves the board, the head and the length as they were.
pub proof fn lemma_collision_loses(m: SnakeModel, inputs: InputState, after: SnakeModel)
    requires
        m.playable(),
        m.steps_to(inputs, after),
        turn(m.dir, inputs) is Some,
        m.board[next_head(m.head, turn(m.dir, inputs)->0)] is Snake,
    ensures
        m.outcome(inputs) == UpdateResult::Loss(m.length as usize),
        after.board == m.board,
        after.head == m.head,
        after.length == m.length,
{
}

/// The apple that brings the length to the number of tiles wins the session
/// with that number as the score, and no further apple is placed: the board
/// is left as it was.
pub proof fn lemma_full_board_wins(m: SnakeModel, inputs: InputState, after: SnakeModel)
    requires
        m.playable(),
        m.steps_to(inputs, after),
        turn(m.dir, inputs) is Some,
        m.board[next_head(m.head, turn(m.dir, inputs)->0)] is Apple,
        m.length + 1 == NUM_PIXELS,
    ensures
        m.outcome(inputs) == UpdateResult::Win(NUM_PIXELS),
        after.board == m.board,
        after.length == NUM_PIXELS,
{
}

/// A win or a loss comes only as these laws say: a win carries the number of
/// tiles, a loss the present length, and each changes neither board nor head.
pub proof fn lemma_terminal_outcomes(m: SnakeModel, inputs: InputState, after: SnakeModel)
    requires
        m.playable(),
        m.steps_to(inputs, after),
        !(m.outcome(inputs) is Continue),
    ensures
        m.outcome(inputs) == UpdateResult::Win(NUM_PIXELS) || m.outcome(inputs)
            == UpdateResult::Loss(m.length as usize),
        after.board == m.board,
        after.head == m.head,
{
}

/// Moving onto an empty tile ages the board: a segment with one frame left
/// gives its tile up, every other segment loses exactly one frame, the apple
/// stays, and the head lands on the new tile with the length as its life.
pub proof fn lemma_moving_ages(m: SnakeModel, inputs: InputState, after: SnakeModel)
    requires
        m.playable(),
        m.steps_to(inputs, after),
        turn(m.dir, inputs) is Some,
        m.board[next_head(m.head, turn(m.dir, inputs)->0)] is Empty,
    ensures
        after.length == m.length,
        after.head == next_head(m.head, turn(m.dir, inputs)->0),
        after.board[after.head] == SnakeTile::Snake(m.length as usize),
        forall|i: int|
            0 <= i < NUM_PIXELS && i != after.head ==> (#[trigger] after.board[i]) == (
            match m.board[i] {
                SnakeTile::Snake(l) => if l == 1 {
                    SnakeTile::Empty
                } else {
                    SnakeTile::Snake((l - 1) as usize)
                },
                other => other,
            }),
{
    let d = turn(m.dir, inputs)->0;
    lemma_next_head_wraps(m.head, d);
}

/// A frame never shortens the snake, and lengthens it by at most one.
pub proof fn lemma_length_never_shrinks(m: SnakeModel, inputs: InputState, after: SnakeModel)
    requires
        m.playable(),
        m.steps_to(inputs, after),
    ensures
        m.length <= after.length <= m.length + 1,
        after.board.len() == NUM_PIXELS,
        after.dir == turn(m.dir, inputs),
{
}

/// Without a direction and without a button the snake stays where it is.
pub proof fn lemma_waits_for_first_input(m: SnakeModel, inputs: InputState, after: SnakeModel)
    requires
        m.dir is None,
        !inputs.up && !inputs.down && !inputs.left && !inputs.right,
        m.steps_to(inputs, after),
    ensures
        m.outcome(inputs) is Continue,
        after == m,
{
}

impl View for Snake {
    type V = SnakeModel;

    closed spec fn view(&self) -> SnakeModel {
        SnakeModel {
            board: self.gameboard@,
            length: self.snake_length as int,
            head: self.head_idx as int,
            dir: self.snake_dir,
        }
    }
}

impl Snake {
    /// The free tiles of the board, in ascending order: those that are empty
    /// and are not `bad_idx`.
    pub fn free_cells(&self, bad_idx: Option<usize>) -> (cells: Vec<usize>)
        ensures
            cells@ == free_cells_of(self@.board, bad_idx),
    {
        let mut cells: Vec<usize> = Vec::new();
        let mut i: usize = 0;
        while i < NUM_PIXELS
            invariant
                i <= NUM_PIXELS,
                self.gameboard@.len() == NUM_PIXELS,
                cells@ == free_cells_upto(self.gameboard@, bad_idx, i as nat),
            decreases NUM_PIXELS - i,
        {
            let skip = match bad_idx {
                Some(b) => b == i,
                None => false,
            };
            if !skip {
                if let SnakeTile::Empty = self.gameboard[i] {
                    cells.push(i);
                }
            }
            i += 1;
        }
        cells
    }

    /// Puts an apple on the free tile number `pick`, counted from zero in
    /// ascending order of index. Where there is no such tile nothing changes.
    pub fn place_apple(&mut self, bad_idx: Option<usize>, pick: u32) -> (placed: bool)
        ensures
            placed <==> pick < free_cells_of(old(self)@.board, bad_idx).len(),
            !placed ==> final(self)@ == old(self)@,
            placed ==> final(self)@ == (SnakeModel {
                board: old(self)@.board.update(
                    free_cells_of(old(self)@.board, bad_idx)[pick as int] as int,
                    SnakeTile::Apple,
                ),
                ..old(self)@
            }),
    {
        let cells = self.free_cells(bad_idx);
        proof {
            lemma_free_cells_upto(self@.board, bad_idx, NUM_PIXELS as nat);
        }
        if (pick as usize) < cells.len() {
            let cell = cells[pick as usize];
            self.gameboard[cell] = SnakeTile::Apple;
            true
        } else {
            false
        }
    }

    /// Puts an apple on a free tile drawn uniformly from the free tiles: those
    /// that are empty and are not `bad_idx`. Reports whether there was one;
    /// where there was none, nothing changes.
    pub fn create_new_apple(&mut self, bad_idx: Option<usize>, context: &mut Context) -> (placed:
        bool)
        ensures
            placed <==> exists|i: int| is_free(old(self)@.board, bad_idx, i),
            !placed ==> final(self)@ == old(self)@,
            placed ==> exists|a: int|
                is_free(old(self)@.board, bad_idx, a) && final(self)@ == (SnakeModel {
                    board: old(self)@.board.update(a, SnakeTile::Apple),
                    ..old(self)@
                }),
    {
        let count = self.free_cells(bad_idx).len();
        proof {
            lemma_free_cells_upto(self@.board, bad_idx, NUM_PIXELS as nat);
        }
        if count == 0 {
            return false;
        }
        let ghost cells = free_cells_of(self@.board, bad_idx);
        let pick = rand_below(context.rng, count as u32);
        let placed = self.place_apple(bad_idx, pick);
        proof {
            assert(is_free(old(self)@.board, bad_idx, cells[pick as int] as int));
        }
        placed
    }

    /// Number of segments the snake is entitled to.
    pub fn snake_length(&self) -> (length: usize)
        ensures
            length == self@.length,
    {
        self.snake_length
    }

    /// Linear index of the head.
    pub fn head_idx(&self) -> (head: usize)
        ensures
            head == self@.head,
    {
        self.head_idx
    }

    /// The direction of travel, once one was given.
    pub fn snake_dir(&self) -> (dir: Option<Direction>)
        ensures
            dir == self@.dir,
    {
        self.snake_dir
    }

    /// A copy of the tiles, by linear index.
    pub fn gameboard(&self) -> (board: [SnakeTile; NUM_PIXELS])
        ensures
            board@ == self@.board,
    {
        self.gameboard
    }

    /// Ages every tile by one frame: a segment loses one frame of life, and
    /// one that had a single frame left gives its tile up.
    fn age(&mut self)
        ensures
            final(self)@ == (SnakeModel { board: aged(old(self)@.board), ..old(self)@ }),
    {
        let mut i: usize = 0;
        while i < NUM_PIXELS
            invariant
                i <= NUM_PIXELS,
                self.snake_length == old(self).snake_length,
                self.head_idx == old(self).head_idx,
                self.snake_dir == old(self).snake_dir,
                forall|k: int| 0 <= k < i ==> self.gameboard@[k] == age_tile(old(self).gameboard@[k]),
                forall|k: int| i <= k < NUM_PIXELS ==> self.gameboard@[k] == old(self).gameboard@[k],
            decreases NUM_PIXELS - i,
        {
            if let SnakeTile::Snake(length) = self.gameboard[i] {
                self.gameboard[i] = if length <= 1 {
                    SnakeTile::Empty
                } else {
                    SnakeTile::Snake(length - 1)
                };
            }
            i += 1;
        }
        assert(self.gameboard@ =~= aged(old(self).gameboard@));
    }
}

impl Game for Snake {
    open spec fn playable(&self) -> bool {
        self@.playable()
    }

    /// A fresh session: a snake of one segment at column 4 of row 4, no
    /// direction yet, and an apple on a tile drawn from the others.
    fn new(context: &mut Context) -> (game: Self)
        ensures
            game@.is_fresh(),
    {
        let mut gameboard = [SnakeTile::Empty; NUM_PIXELS];
        let snake_length: usize = 1;
        let head_idx = pos_to_idx((4, 4));
        gameboard[head_idx] = SnakeTile::Snake(snake_length);
        let mut s = Snake { gameboard, snake_length, head_idx, snake_dir: None };
        let ghost start = s@;
        assert(is_free(start.board, None, 0));
        let _placed = s.create_new_apple(None, context);
        proof {
            let a = choose|a: int|
                is_free(start.board, None, a) && s@ == (SnakeModel {
                    board: start.board.update(a, SnakeTile::Apple),
                    ..start
                });
            assert(s@.board =~= fresh_board(s@.head, a));
            lemma_fresh_is_playable(s@);
        }
        s
    }

    /// Plays one frame: reads the buttons, and once a direction is set moves
    /// the head one step on the torus. An apple there is eaten and replaced,
    /// or wins the session where the snake then fills the board; a segment
    /// there loses it; an empty tile ages the whole board by one frame.
    fn update(&mut self, inputs: &InputState, context: &mut Context) -> (result: UpdateResult)
        ensures
            result == old(self)@.outcome(*inputs),
            old(self)@.steps_to(*inputs, final(self)@),
    {
        let ghost before = self@;
        self.snake_dir = resolve_direction(self.snake_dir, inputs);
        let dir = match self.snake_dir {
            Some(dir) => dir,
            None => {
                return UpdateResult::Continue;
            },
        };
        let next_idx = next_head_idx(self.head_idx, dir);
        match self.gameboard[next_idx] {
            SnakeTile::Apple => {
                self.snake_length += 1;
                if self.snake_length == NUM_PIXELS {
                    return UpdateResult::Win(self.snake_length);
                }
                proof {
                    lemma_free_cell_exists(before, next_idx as int);
                }
                let _placed = self.create_new_apple(Some(next_idx), context);
            },
            SnakeTile::Snake(_) => {
                return UpdateResult::Loss(self.snake_length);
            },
            SnakeTile::Empty => {
                self.age();
            },
        }
        let ghost resolved = self@;
        self.head_idx = next_idx;
        self.gameboard[next_idx] = SnakeTile::Snake(self.snake_length);
        proof {
            let n = next_idx as int;
            if before.board[n] is Apple {
                let a = choose|a: int|
                    #[trigger] is_free(before.board, Some(next_idx), a) && resolved.board
                        == before.board.update(a, SnakeTile::Apple);
                assert(self@.board =~= before.grown(dir, n, a).board);
                assert(self@ == before.grown(dir, n, a));
                lemma_grown_is_playable(before, dir, n, a);
            } else {
                assert(self@.board =~= before.moved(dir, n).board);
                lemma_moved_is_playable(before, dir, n);
            }
        }
        UpdateResult::Continue
    }

    /// The pixel buffer of the current board: 0 where a tile is empty, 1 where
    /// the apple lies, 2 where a segment of the snake lies.
    fn display(&self) -> (pixels: [u8; NUM_PIXELS])
        ensures
            forall|i: int| 0 <= i < NUM_PIXELS ==> pixels@[i] == pixel_of(#[trigger] self@.board[i]),
    {
        let mut buf = [0u8; NUM_PIXELS];
        let mut i: usize = 0;
        while i < NUM_PIXELS
            invariant
                i <= NUM_PIXELS,
                forall|k: int| 0 <= k < i ==> buf@[k] == pixel_of(#[trigger] self.gameboard@[k]),
            decreases NUM_PIXELS - i,
        {
            buf[i] = match self.gameboard[i] {
                SnakeTile::Empty => 0,
                SnakeTile::Snake(_) => 2,
                SnakeTile::Apple => 1,
            };
            i += 1;
        }
        buf
    }
}

} // verus!
