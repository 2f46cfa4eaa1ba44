//! The game session: gravity, input handling, wall kicks, holding, scoring and
//! spawning.
use vstd::prelude::*;

use crate::bag::{all_kinds, draw_step, fisher_yates, Bag, KIND_COUNT};
use crate::board::{
    cleared, empty_row, full_count, lemma_fits_position, lemma_spawn_fits, locked, spawn_fits, Board, MAX_SIDE,
};
use crate::pieces::{rotated, PieceState, PieceType};

verus! {

/// Points for the number of rows removed by one lock.
pub open spec fn points_for(lines: int) -> int {
    if lines == 1 {
        100
    } else if lines == 2 {
        300
    } else if lines == 3 {
        500
    } else if lines == 4 {
        800
    } else {
        0
    }
}

/// A score after adding points, held at the largest `u32`.
pub open spec fn add_points(score: u32, points: int) -> u32 {
    if score + points > u32::MAX {
        u32::MAX
    } else {
        (score + points) as u32
    }
}

/// The piece moved to another row, in the same column and rotation.
pub open spec fn at_row(p: PieceState, row: int) -> PieceState {
    PieceState { row: row as i8, ..p }
}

/// The piece moved to another column, in the same row and rotation.
pub open spec fn at_col(p: PieceState, col: int) -> PieceState {
    PieceState { col: col as i8, ..p }
}

/// A freshly spawned piece of a kind at the spawn column.
pub open spec fn spawned(kind: PieceType, col: i8) -> PieceState {
    PieceState { piece_type: kind, row: 0, col, rotation: 0 }
}

/// Points for clearing the given number of rows at once: 100, 300, 500 and 800
/// for one to four rows, nothing otherwise.
pub fn line_clear_score(lines: u32) -> (r: u32)
    ensures
        r == points_for(lines as int),
{
    match lines {
        1 => 100,
        2 => 300,
        3 => 500,
        4 => 800,
        _ => 0,
    }
}

/// The offsets, as (column, row), tried in order when a rotation is blocked;
/// the first is no offset at all.
pub open spec fn kick_offsets() -> Seq<(int, int)> {
    seq![(0, 0), (-1, 0), (1, 0), (0, 1), (-2, 0), (2, 0), (0, 2)]
}

/// The piece moved by a (column, row) offset.
pub open spec fn kicked(p: PieceState, k: (int, int)) -> PieceState {
    PieceState { row: (p.row + k.1) as i8, col: (p.col + k.0) as i8, ..p }
}

/// The first valid position among the kicks of `p` from index `i` on.
pub open spec fn first_valid_kick(board: Board, p: PieceState, i: int) -> Option<PieceState>
    decreases kick_offsets().len() - i,
{
    if i < 0 || i >= kick_offsets().len() {
        None
    } else if board.valid(kicked(p, kick_offsets()[i])) {
        Some(kicked(p, kick_offsets()[i]))
    } else {
        first_valid_kick(board, p, i + 1)
    }
}

/// `q` is where `p` comes to rest when it falls straight down: every row it
/// passes through on the way is valid and the next one is not.
pub open spec fn is_landing(board: Board, p: PieceState, q: PieceState) -> bool {
    &&& q == at_row(p, q.row as int)
    &&& p.row <= q.row
    &&& forall|e: int| p.row < e <= q.row ==> board.valid(#[trigger] at_row(p, e))
    &&& !board.valid(at_row(p, q.row + 1))
}

fn kick_offset(i: usize) -> (r: (i8, i8))
    requires
        i < 7,
    ensures
        (r.0 as int, r.1 as int) == kick_offsets()[i as int],
{
    match i {
        0 => (0, 0),
        1 => (-1, 0),
        2 => (1, 0),
        3 => (0, 1),
        4 => (-2, 0),
        5 => (2, 0),
        _ => (0, 2),
    }
}

/// A game session.
pub struct Game {
    pub board: Board,
    pub current_piece: PieceState,
    /// Milliseconds accumulated toward the next gravity step.
    pub time_since_last_drop: u32,
    /// The column where new pieces appear.
    pub cursor_x: i8,
    pub score: u32,
    pub held_piece: Option<PieceType>,
    pub can_hold_this_turn: bool,
    pub next_piece: PieceType,
    pub bag: Bag,
    pub drop_interval_ms: u32,
}

/// What locking `piece` does: it is written into the grid, full rows are
/// cleared and scored, the next kind spawns, a new next kind is drawn and
/// holding is allowed again.
pub open spec fn lock_step(before: Game, after: Game, piece: PieceState) -> bool {
    let g = locked(before.board.grid(), piece.cells(), piece.piece_type);
    &&& after.board.width == before.board.width
    &&& after.board.height == before.board.height
    &&& after.board.grid() == cleared(g, before.board.width as int)
    &&& after.score == add_points(before.score, points_for(full_count(g)))
    &&& after.current_piece == spawned(before.next_piece, before.cursor_x)
    &&& draw_step(before.bag, after.bag, after.next_piece)
    &&& after.can_hold_this_turn
    &&& after.held_piece == before.held_piece
    &&& after.time_since_last_drop == before.time_since_last_drop
    &&& after.cursor_x == before.cursor_x
    &&& after.drop_interval_ms == before.drop_interval_ms
}

/// What one downward step does: move down one row when that position is
/// valid, else lock the piece where it is.
pub open spec fn drop_step(before: Game, after: Game) -> bool {
    let down = at_row(before.current_piece, before.current_piece.row + 1);
    if before.board.valid(down) {
        after == Game { current_piece: down, ..before }
    } else {
        lock_step(before, after, before.current_piece)
    }
}

/// What a sideways move does: take the position `delta` columns over when it
/// is valid, else change nothing.
pub open spec fn shift_step(before: Game, after: Game, delta: int) -> bool {
    let moved = at_col(before.current_piece, before.current_piece.col + delta);
    if before.board.valid(moved) {
        after == Game { current_piece: moved, ..before }
    } else {
        after == before
    }
}

/// What a hold request does. Once per piece: with nothing held, the falling
/// kind is set aside and the next kind comes in; otherwise the falling and held
/// kinds trade places, the held one starting anew. Either way holding is then
/// barred until a lock spawns the next piece.
pub open spec fn hold_step(before: Game, after: Game) -> bool {
    if !before.can_hold_this_turn {
        after == before
    } else {
        match before.held_piece {
            Some(held) => after == Game {
                current_piece: spawned(held, before.cursor_x),
                held_piece: Some(before.current_piece.piece_type),
                can_hold_this_turn: false,
                ..before
            },
            None => {
                &&& after.held_piece == Some(before.current_piece.piece_type)
                &&& after.current_piece == spawned(before.next_piece, before.cursor_x)
                &&& draw_step(before.bag, after.bag, after.next_piece)
                &&& !after.can_hold_this_turn
                &&& after.board == before.board
                &&& after.score == before.score
                &&& after.time_since_last_drop == before.time_since_last_drop
                &&& after.cursor_x == before.cursor_x
                &&& after.drop_interval_ms == before.drop_interval_ms
            },
        }
    }
}

impl Game {
    /// The board and every piece state are well formed, the falling piece lies
    /// on the board, every kind can spawn, and the time accumulated stays below
    /// the gravity interval.
    pub open spec fn wf(&self) -> bool {
        &&& self.board.wf()
        &&& self.current_piece.wf()
        &&& self.board.fits(self.current_piece)
        &&& spawn_fits(self.board, self.cursor_x as int)
        &&& self.bag.wf()
        &&& self.drop_interval_ms > 0
        &&& self.time_since_last_drop < self.drop_interval_ms
    }

    /// A session on an empty 10 by 20 board, with pieces spawning at column 3
    /// and a gravity step every 1000 ms.
    pub fn new(seed: u64) -> (r: Game)
        ensures
            r.wf(),
            r.board.width == 10,
            r.board.height == 20,
            r.board.grid() == Seq::new(20, |i: int| empty_row(10)),
            r.current_piece == spawned(r.bag.pieces@[0], 3),
            r.next_piece == r.bag.pieces@[1],
            r.bag.index == 2,
            (r.bag.pieces@, r.bag.rng.state) == fisher_yates(all_kinds(), seed, KIND_COUNT as nat),
            r.cursor_x == 3,
            r.drop_interval_ms == 1000,
            r.score == 0,
            r.held_piece is None,
            r.can_hold_this_turn,
            r.time_since_last_drop == 0,
    {
        Game::with_config(10, 20, 1000, 3, seed)
    }

    /// A session on an empty board of the given size; pieces spawn at
    /// `spawn_col` and gravity steps every `drop_interval_ms`.
    pub fn with_config(width: u32, height: u32, drop_interval_ms: u32, spawn_col: i8, seed: u64) -> (r: Game)
        requires
            1 <= width <= MAX_SIDE,
            3 <= height <= MAX_SIDE,
            1 <= spawn_col,
            spawn_col + 4 <= width,
            drop_interval_ms > 0,
        ensures
            r.wf(),
            r.board.width == width,
            r.board.height == height,
            r.board.grid() == Seq::new(height as nat, |i: int| empty_row(width as int)),
            r.current_piece == spawned(r.bag.pieces@[0], spawn_col),
            r.next_piece == r.bag.pieces@[1],
            r.bag.index == 2,
            (r.bag.pieces@, r.bag.rng.state) == fisher_yates(all_kinds(), seed, KIND_COUNT as nat),
            r.cursor_x == spawn_col,
            r.drop_interval_ms == drop_interval_ms,
            r.score == 0,
            r.held_piece is None,
            r.can_hold_this_turn,
            r.time_since_last_drop == 0,
    {
        let board = Board::with_size(width, height);
        let mut bag = Bag::new(seed);
        let first = bag.draw();
        let next_piece = bag.draw();
        proof {
            lemma_spawn_fits(board, first, spawn_col as int);
        }
        Game {
            board,
            current_piece: PieceState::new(first, spawn_col),
            time_since_last_drop: 0,
            cursor_x: spawn_col,
            score: 0,
            held_piece: None,
            can_hold_this_turn: true,
            next_piece,
            bag,
            drop_interval_ms,
        }
    }

    pub fn score(&self) -> (r: u32)
        ensures
            r == self.score,
    {
        self.score
    }

    pub fn held_piece(&self) -> (r: Option<PieceType>)
        ensures
            r == self.held_piece,
    {
        self.held_piece
    }

    pub fn next_piece(&self) -> (r: PieceType)
        ensures
            r == self.next_piece,
    {
        self.next_piece
    }

    pub fn current_piece(&self) -> (r: PieceState)
        ensures
            r == self.current_piece,
    {
        self.current_piece
    }

    pub fn board(&self) -> (r: &Board)
        ensures
            r == self.board,
    {
        &self.board
    }

    /// Locks the falling piece, clears and scores full rows, spawns the next
    /// kind and draws a new next kind. A spawned piece may overlap settled
    /// cells; the session has no end state and play goes on.
    fn lock_and_spawn(&mut self)
        requires
            old(self).wf(),
        ensures
            final(self).wf(),
            lock_step(*old(self), *final(self), old(self).current_piece),
    {
        let piece = self.current_piece;
        self.board.lock_piece(&piece);
        let lines_cleared = self.board.clear_lines();
        let points = line_clear_score(lines_cleared);
        self.score = self.score.saturating_add(points);
        self.current_piece = PieceState::new(self.next_piece, self.cursor_x);
        proof {
            lemma_spawn_fits(self.board, self.next_piece, self.cursor_x as int);
        }
        self.can_hold_this_turn = true;
        self.next_piece = self.bag.draw();
    }

    /// Moves the falling piece one column left when that position is valid.
    pub fn move_cursor_left(&mut self)
        requires
            old(self).wf(),
        ensures
            final(self).wf(),
            shift_step(*old(self), *final(self), -1),
    {
        self.shift(-1);
    }

    /// Moves the falling piece one column right when that position is valid.
    pub fn move_cursor_right(&mut self)
        requires
            old(self).wf(),
        ensures
            final(self).wf(),
            shift_step(*old(self), *final(self), 1),
    {
        self.shift(1);
    }

    fn shift(&mut self, delta: i8)
        requires
            old(self).wf(),
            delta == -1 || delta == 1,
        ensures
            final(self).wf(),
            shift_step(*old(self), *final(self), delta as int),
    {
        let mut next_piece = self.current_piece;
        proof {
            lemma_fits_position(self.board, self.current_piece);
        }
        next_piece.translate(0, delta);
        if self.board.is_valid_position(&next_piece) {
            self.current_piece = next_piece;
        }
    }

    /// Rotates the falling piece, trying the kick offsets in order and taking
    /// the first valid position; when none is valid the piece stays as it was.
    pub fn rotate_current_piece(&mut self)
        requires
            old(self).wf(),
        ensures
            final(self).wf(),
            match first_valid_kick(old(self).board, rotated(old(self).current_piece), 0) {
                Some(q) => *final(self) == Game { current_piece: q, ..*old(self) },
                None => *final(self) == *old(self),
            },
    {
        let mut next_piece = self.current_piece;
        next_piece.rotate();
        proof {
            lemma_fits_position(self.board, self.current_piece);
        }
        let mut i: usize = 0;
        while i < 7
            invariant
                self == old(self),
                self.wf(),
                next_piece == rotated(self.current_piece),
                next_piece.wf(),
                -4 <= next_piece.row <= MAX_SIDE,
                -4 <= next_piece.col <= MAX_SIDE,
                i <= 7,
                first_valid_kick(self.board, next_piece, 0) == first_valid_kick(self.board, next_piece, i as int),
            decreases 7 - i,
        {
            let (col_offset, row_offset) = kick_offset(i);
            let mut kicked_piece = next_piece;
            kicked_piece.translate(row_offset, col_offset);
            assert(kicked_piece == kicked(next_piece, kick_offsets()[i as int]));
            if self.board.is_valid_position(&kicked_piece) {
                self.current_piece = kicked_piece;
                return;
            }
            i += 1;
        }
    }

    /// Where the falling piece would come to rest if dropped straight down.
    pub fn ghost_piece(&self) -> (r: PieceState)
        requires
            self.wf(),
        ensures
            is_landing(self.board, self.current_piece, r),
            r.wf(),
            self.board.fits(r),
    {
        let mut ghost_piece = self.current_piece;
        proof {
            lemma_fits_position(self.board, self.current_piece);
        }
        loop
            invariant
                self.wf(),
                ghost_piece == at_row(self.current_piece, ghost_piece.row as int),
                self.current_piece.row <= ghost_piece.row <= MAX_SIDE,
                ghost_piece.wf(),
                self.board.fits(ghost_piece),
                forall|e: int| self.current_piece.row < e <= ghost_piece.row ==> self.board.valid(#[trigger] at_row(self.current_piece, e)),
            decreases MAX_SIDE - ghost_piece.row,
        {
            let mut below = ghost_piece;
            below.translate(1, 0);
            if !self.board.is_valid_position(&below) {
                return ghost_piece;
            }
            proof {
                lemma_fits_position(self.board, below);
            }
            ghost_piece = below;
        }
    }

    /// Drops the falling piece straight down and locks it where it lands.
    pub fn hard_drop_current_piece(&mut self)
        requires
            old(self).wf(),
        ensures
            final(self).wf(),
            exists|q: PieceState| is_landing(old(self).board, old(self).current_piece, q) && lock_step(*old(self), *final(self), q),
    {
        let landing = self.ghost_piece();
        self.current_piece = landing;
        let ghost mid = *self;
        self.lock_and_spawn();
        assert(lock_step(mid, *self, landing));
        assert(lock_step(*old(self), *self, landing));
    }

    /// Sets the falling kind aside or trades it for the held one; allowed once
    /// per piece.
    pub fn hold_piece(&mut self)
        requires
            old(self).wf(),
        ensures
            final(self).wf(),
            hold_step(*old(self), *final(self)),
    {
        if !self.can_hold_this_turn {
            return;
        }
        self.can_hold_this_turn = false;
        let current_piece_type = self.current_piece.piece_type;
        proof {
            lemma_spawn_fits(self.board, self.next_piece, self.cursor_x as int);
        }
        match self.held_piece {
            Some(held) => {
                proof {
                    lemma_spawn_fits(self.board, held, self.cursor_x as int);
                }
                self.current_piece = PieceState::new(held, self.cursor_x);
                self.held_piece = Some(current_piece_type);
            },
            None => {
                self.held_piece = Some(current_piece_type);
                self.current_piece = PieceState::new(self.next_piece, self.cursor_x);
                self.next_piece = self.bag.draw();
            },
        }
    }

    /// Advances time by `delta_ms` milliseconds: each time the accumulated time
    /// reaches the gravity interval, the interval is taken off and the falling
    /// piece takes one downward step.
    pub fn tick(&mut self, delta_ms: u32)
        requires
            old(self).wf(),
        ensures
            final(self).wf(),
            final(self).time_since_last_drop == (old(self).time_since_last_drop + delta_ms) % (old(self).drop_interval_ms as int),
            exists|steps: Seq<Game>| {
                &&& steps.len() == (old(self).time_since_last_drop + delta_ms) / (old(self).drop_interval_ms as int) + 1
                &&& steps[0] == *old(self)
                &&& forall|i: int| 0 <= i < steps.len() - 1 ==> drop_step(#[trigger] steps[i], steps[i + 1])
                &&& *final(self) == Game { time_since_last_drop: final(self).time_since_last_drop, ..steps.last() }
            },
    {
        let total: u64 = self.time_since_last_drop as u64 + delta_ms as u64;
        let interval: u64 = self.drop_interval_ms as u64;
        let mut acc: u64 = total;
        let ghost mut steps: Seq<Game> = seq![*self];
        let ghost mut count: int = 0;
        while acc >= interval
            invariant
                self.wf(),
                interval == self.drop_interval_ms,
                self.drop_interval_ms == old(self).drop_interval_ms,
                self.time_since_last_drop == old(self).time_since_last_drop,
                total == old(self).time_since_last_drop + delta_ms,
                count >= 0,
                acc + count * interval == total,
                steps.len() == count + 1,
                steps[0] == *old(self),
                steps.last() == *self,
                forall|i: int| 0 <= i < steps.len() - 1 ==> drop_step(#[trigger] steps[i], steps[i + 1]),
            decreases acc,
        {
            acc -= interval;
            let ghost before = *self;
            self.soft_drop();
            proof {
                let prev = steps;
                steps = steps.push(*self);
                assert forall|i: int| 0 <= i < steps.len() - 1 implies drop_step(#[trigger] steps[i], steps[i + 1]) by {
                    if i < prev.len() - 1 {
                        assert(steps[i] == prev[i] && steps[i + 1] == prev[i + 1]);
                    } else {
                        assert(steps[i] == before);
                    }
                }
                assert((count + 1) * interval == count * interval + interval) by (nonlinear_arith);
                count = count + 1;
            }
        }
        self.time_since_last_drop = acc as u32;
        proof {
            vstd::arithmetic::div_mod::lemma_fundamental_div_mod_converse(
                total as int,
                interval as int,
                count,
                acc as int,
            );
        }
    }

    /// Moves the falling piece down one row, or locks it when it cannot move.
    pub fn soft_drop(&mut self)
        requires
            old(self).wf(),
        ensures
            final(self).wf(),
            drop_step(*old(self), *final(self)),
    {
        let mut next_piece = self.current_piece;
        proof {
            lemma_fits_position(self.board, self.current_piece);
        }
        next_piece.translate(1, 0);
        if self.board.is_valid_position(&next_piece) {
            self.current_piece = next_piece;
        } else {
            self.lock_and_spawn();
        }
    }
}

/// Locking a piece adds 100, 300, 500 or 800 points when it completes one, two,
/// three or four rows, and nothing when it completes none (while the score is
/// far enough from the largest `u32`).
pub proof fn lemma_lock_score(before: Game, after: Game, piece: PieceState)
    requires
        lock_step(before, after, piece),
        before.score + 800 <= u32::MAX,
    ensures
        ({
            let lines = full_count(locked(before.board.grid(), piece.cells(), piece.piece_type));
            &&& lines == 0 ==> after.score == before.score
            &&& lines == 1 ==> after.score == before.score + 100
            &&& lines == 2 ==> after.score == before.score + 300
            &&& lines == 3 ==> after.score == before.score + 500
            &&& lines == 4 ==> after.score == before.score + 800
        }),
{
}

/// A downward step that cannot move locks the piece where it stands and
/// scores the rows it completes by the same table (while the score is far
/// enough from the largest `u32`).
pub proof fn lemma_drop_score(before: Game, after: Game)
    requires
        drop_step(before, after),
        !before.board.valid(at_row(before.current_piece, before.current_piece.row + 1)),
        before.score + 800 <= u32::MAX,
    ensures
        ({
            let p = before.current_piece;
            let lines = full_count(locked(before.board.grid(), p.cells(), p.piece_type));
            after.score == before.score + points_for(lines)
        }),
{
}

/// Two hold requests in a row: after the first, holding is barred, so the
/// second changes nothing.
pub proof fn lemma_hold_once(g0: Game, g1: Game, g2: Game)
    requires
        hold_step(g0, g1),
        hold_step(g1, g2),
    ensures
        g2 == g1,
        !g1.can_hold_this_turn,
{
}

} // verus!
