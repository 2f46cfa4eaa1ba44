//! The grid of settled cells.
use vstd::prelude::*;

use crate::pieces::{
    catalog, coords, lemma_cells_nonempty, lemma_placed_cells_bounds, lemma_spawn_cells, PieceState,
    PieceType,
};

verus! {

/// Largest width or height of a board. Piece coordinates are `i8` and a piece
/// position stays within `POSITION_LIMIT` of the origin, which leaves room for
/// a piece to stand a few rows and columns beyond a side of this length.
pub const MAX_SIDE: u32 = 96;

/// A row of a grid is full when every cell in it is occupied.
pub open spec fn row_full(row: Seq<Option<PieceType>>) -> bool {
    forall|c: int| 0 <= c < row.len() ==> (#[trigger] row[c]) is Some
}

/// A row of `width` empty cells.
pub open spec fn empty_row(width: int) -> Seq<Option<PieceType>> {
    Seq::new(width as nat, |c: int| None)
}

/// The rows of a grid that are not full, in their order.
pub open spec fn kept_rows(g: Seq<Seq<Option<PieceType>>>) -> Seq<Seq<Option<PieceType>>> {
    g.filter(|row: Seq<Option<PieceType>>| !row_full(row))
}

/// Number of full rows of a grid.
pub open spec fn full_count(g: Seq<Seq<Option<PieceType>>>) -> int {
    g.len() - kept_rows(g).len()
}

/// A grid after its full rows are removed: the other rows keep their order and
/// sink to the bottom, and as many empty rows as were removed fill the top.
pub open spec fn cleared(g: Seq<Seq<Option<PieceType>>>, width: int) -> Seq<Seq<Option<PieceType>>> {
    Seq::new(full_count(g) as nat, |i: int| empty_row(width)) + kept_rows(g)
}

/// A grid with the given cells set to `kind`.
pub open spec fn locked(g: Seq<Seq<Option<PieceType>>>, cells: Seq<(int, int)>, kind: PieceType) -> Seq<Seq<Option<PieceType>>> {
    Seq::new(
        g.len(),
        |r: int| Seq::new(g[r].len(), |c: int| if cells.contains((r, c)) { Some(kind) } else { g[r][c] }),
    )
}

/// The settled cells: `height` rows of `width` cells, row 0 at the top. A cell
/// holds the kind of the piece that locked there.
pub struct Board {
    pub width: u32,
    pub height: u32,
    pub placed_pieces: Vec<Vec<Option<PieceType>>>,
}

fn new_empty_row(width: u32) -> (r: Vec<Option<PieceType>>)
    ensures
        r@ == empty_row(width as int),
{
    let mut row: Vec<Option<PieceType>> = Vec::new();
    let mut c: u32 = 0;
    while c < width
        invariant
            c <= width,
            row@ == empty_row(c as int),
        decreases width - c,
    {
        row.push(None);
        c += 1;
        assert(row@ =~= empty_row(c as int));
    }
    row
}

fn row_is_full(row: &Vec<Option<PieceType>>) -> (r: bool)
    ensures
        r == row_full(row@),
{
    let mut c: usize = 0;
    while c < row.len()
        invariant
            c <= row.len(),
            forall|i: int| 0 <= i < c ==> (#[trigger] row@[i]) is Some,
        decreases row.len() - c,
    {
        if row[c].is_none() {
            return false;
        }
        c += 1;
    }
    true
}

proof fn lemma_kept_prepend(x: Seq<Option<PieceType>>, s: Seq<Seq<Option<PieceType>>>)
    ensures
        kept_rows(seq![x] + s) == (if row_full(x) { kept_rows(s) } else { seq![x] + kept_rows(s) }),
{
    s.lemma_filter_prepend(x, |row: Seq<Option<PieceType>>| !row_full(row));
    if row_full(x) {
        assert(Seq::<Seq<Option<PieceType>>>::empty() + kept_rows(s) =~= kept_rows(s));
    }
}

impl Default for Board {
    fn default() -> (r: Board)
        ensures
            r.wf(),
            r.width == 10,
            r.height == 20,
            r.grid() == Seq::new(20, |i: int| empty_row(10)),
    {
        Board::new()
    }
}

impl Board {
    /// The grid as rows of cells.
    pub open spec fn grid(&self) -> Seq<Seq<Option<PieceType>>> {
        self.placed_pieces@.map_values(|row: Vec<Option<PieceType>>| row@)
    }

    /// Dimensions within range, and a grid of exactly those dimensions.
    pub open spec fn wf(&self) -> bool {
        &&& 1 <= self.width <= MAX_SIDE
        &&& 1 <= self.height <= MAX_SIDE
        &&& self.placed_pieces@.len() == self.height
        &&& forall|r: int| 0 <= r < self.height ==> (#[trigger] self.placed_pieces@[r])@.len() == self.width
    }

    /// The cell lies on the board.
    pub open spec fn in_bounds(&self, p: (int, int)) -> bool {
        0 <= p.0 < self.height && 0 <= p.1 < self.width
    }

    /// Every cell of the piece lies on the board.
    pub open spec fn fits(&self, piece: PieceState) -> bool {
        forall|k: int| 0 <= k < piece.cells().len() ==> self.in_bounds(#[trigger] piece.cells()[k])
    }

    /// Every cell of the piece lies on the board and is empty.
    pub open spec fn valid(&self, piece: PieceState) -> bool {
        forall|k: int| 0 <= k < piece.cells().len() ==> {
            let p = #[trigger] piece.cells()[k];
            self.in_bounds(p) && self.grid()[p.0][p.1] is None
        }
    }

    /// An empty board of 10 columns and 20 rows.
    pub fn new() -> (r: Board)
        ensures
            r.wf(),
            r.width == 10,
            r.height == 20,
            r.grid() == Seq::new(20, |i: int| empty_row(10)),
    {
        Board::with_size(10, 20)
    }

    /// An empty board of the given size.
    pub fn with_size(width: u32, height: u32) -> (r: Board)
        requires
            1 <= width <= MAX_SIDE,
            1 <= height <= MAX_SIDE,
        ensures
            r.wf(),
            r.width == width,
            r.height == height,
            r.grid() == Seq::new(height as nat, |i: int| empty_row(width as int)),
    {
        let mut placed_pieces: Vec<Vec<Option<PieceType>>> = Vec::new();
        let mut r: u32 = 0;
        while r < height
            invariant
                r <= height,
                placed_pieces@.len() == r,
                forall|i: int| 0 <= i < r ==> (#[trigger] placed_pieces@[i])@ == empty_row(width as int),
            decreases height - r,
        {
            let row = new_empty_row(width);
            placed_pieces.push(row);
            r += 1;
        }
        let b = Board { width, height, placed_pieces };
        assert(b.grid() =~= Seq::new(height as nat, |i: int| empty_row(width as int)));
        b
    }

    /// Whether every cell the piece covers lies on the board and is empty.
    pub fn is_valid_position(&self, piece: &PieceState) -> (r: bool)
        requires
            self.wf(),
            piece.wf(),
        ensures
            r == self.valid(*piece),
    {
        let blocks = piece.iter_blocks();
        let mut k: usize = 0;
        while k < blocks.len()
            invariant
                self.wf(),
                k <= blocks.len(),
                coords(blocks@) == piece.cells(),
                forall|j: int| 0 <= j < k ==> {
                    let p = #[trigger] piece.cells()[j];
                    self.in_bounds(p) && self.grid()[p.0][p.1] is None
                },
            decreases blocks.len() - k,
        {
            let (r, c) = blocks[k];
            assert(piece.cells()[k as int] == (r as int, c as int));
            if r < 0 || r as i32 >= self.height as i32 || c < 0 || c as i32 >= self.width as i32 {
                return false;
            }
            if self.placed_pieces[r as usize][c as usize].is_some() {
                return false;
            }
            k += 1;
        }
        true
    }

    /// Writes the piece's kind into every cell it covers.
    pub fn lock_piece(&mut self, piece: &PieceState)
        requires
            old(self).wf(),
            piece.wf(),
            old(self).fits(*piece),
        ensures
            final(self).wf(),
            final(self).width == old(self).width,
            final(self).height == old(self).height,
            final(self).grid() == locked(old(self).grid(), piece.cells(), piece.piece_type),
    {
        let blocks = piece.iter_blocks();
        let kind = piece.piece_type;
        let ghost g0 = self.grid();
        assert forall|i: int| 0 <= i < self.height implies (#[trigger] g0[i]).len() == self.width by {
            assert(g0[i] == self.placed_pieces@[i]@);
        }
        assert(locked(g0, piece.cells().take(0), kind) =~~= g0);
        let mut k: usize = 0;
        while k < blocks.len()
            invariant
                self.wf(),
                self.width == old(self).width,
                self.height == old(self).height,
                g0 == old(self).grid(),
                g0.len() == self.height,
                forall|i: int| 0 <= i < self.height ==> (#[trigger] g0[i]).len() == self.width,
                k <= blocks.len(),
                coords(blocks@) == piece.cells(),
                old(self).fits(*piece),
                self.grid() == locked(g0, piece.cells().take(k as int), kind),
            decreases blocks.len() - k,
        {
            let (r, c) = blocks[k];
            assert(piece.cells()[k as int] == (r as int, c as int));
            assert(self.in_bounds((r as int, c as int)));
            let ghost before = self.grid();
            self.placed_pieces[r as usize][c as usize] = Some(kind);
            let ghost prev = piece.cells().take(k as int);
            let ghost cells = piece.cells().take(k + 1);
            assert(cells =~= prev.push((r as int, c as int)));
            assert forall|q: (int, int)| #[trigger] cells.contains(q) == (prev.contains(q) || q == (r as int, c as int)) by {
                if q == (r as int, c as int) {
                    assert(cells[k as int] == q);
                }
                if prev.contains(q) {
                    let j = choose|j: int| 0 <= j < prev.len() && prev[j] == q;
                    assert(cells[j] == q);
                }
                if cells.contains(q) && q != (r as int, c as int) {
                    let j = choose|j: int| 0 <= j < cells.len() && cells[j] == q;
                    assert(prev[j] == q);
                }
            }
            assert(self.grid() =~~= locked(g0, cells, kind)) by {
                assert forall|i: int| 0 <= i < self.height implies #[trigger] self.grid()[i] =~= locked(g0, cells, kind)[i] by {
                    assert(self.grid()[i] == self.placed_pieces@[i]@);
                    assert(before[i] == locked(g0, prev, kind)[i]);
                    if i == r as int {
                        assert(self.grid()[i] =~= before[i].update(c as int, Some(kind)));
                    } else {
                        assert(self.grid()[i] == before[i]);
                    }
                }
            }
            k += 1;
        }
        assert(piece.cells().take(k as int) =~= piece.cells());
    }

    /// Removes every full row; the rows above each removed row move down and
    /// empty rows enter at the top. Returns how many rows were removed.
    pub fn clear_lines(&mut self) -> (r: u32)
        requires
            old(self).wf(),
        ensures
            final(self).wf(),
            final(self).width == old(self).width,
            final(self).height == old(self).height,
            final(self).grid() == cleared(old(self).grid(), old(self).width as int),
            r == full_count(old(self).grid()),
    {
        let ghost g0 = self.grid();
        let ghost h = self.height as int;
        let ghost w = self.width as int;
        let ghost mut j: int = h;
        let mut lines_cleared: u32 = 0;
        let mut r: usize = self.height as usize;
        proof {
            let tail = g0.subrange(h, h);
            tail.lemma_filter_len(|row: Seq<Option<PieceType>>| !row_full(row));
            assert(kept_rows(tail) =~= Seq::<Seq<Option<PieceType>>>::empty());
            assert(self.grid() =~= Seq::new(0, |i: int| empty_row(w)) + g0.subrange(0, h) + kept_rows(tail));
        }
        while r > 0
            invariant
                self.wf(),
                self.width == old(self).width,
                self.height == old(self).height,
                g0 == old(self).grid(),
                h == self.height,
                w == self.width,
                g0.len() == h,
                0 <= j <= h,
                r <= lines_cleared + j,
                j > 0 ==> r == lines_cleared + j,
                lines_cleared + j + kept_rows(g0.subrange(j, h)).len() == h,
                self.grid() == Seq::new(lines_cleared as nat, |i: int| empty_row(w)) + g0.subrange(0, j) + kept_rows(g0.subrange(j, h)),
            decreases r + j,
        {
            r -= 1;
            let ghost ri = r as int;
            let ghost before = self.grid();
            let ghost top = Seq::new(lines_cleared as nat, |i: int| empty_row(w));
            let full = row_is_full(&self.placed_pieces[r]);
            assert(before[r as int] == self.placed_pieces@[r as int]@);
            proof {
                if j == 0 {
                    assert(before[r as int] == top[r as int]);
                    assert(!row_full(before[r as int])) by {
                        assert(before[r as int][0] is None);
                    }
                }
                if j > 0 {
                    assert(before[r as int] == g0[j - 1]);
                    assert(g0.subrange(j - 1, h) =~= seq![g0[j - 1]] + g0.subrange(j, h));
                    lemma_kept_prepend(g0[j - 1], g0.subrange(j, h));
                }
            }
            if full {
                lines_cleared += 1;
                let ghost kept = kept_rows(g0.subrange(j, h));
                let ghost pre = self.placed_pieces@;
                let _ = self.placed_pieces.remove(r);
                let empty = new_empty_row(self.width);
                self.placed_pieces.insert(0, empty);
                r += 1;
                proof {
                    let moved = before.remove(ri).insert(0, empty_row(w));
                    assert(self.grid() =~= moved);
                    assert(moved =~= Seq::new(lines_cleared as nat, |i: int| empty_row(w)) + g0.subrange(0, j - 1) + kept);
                    j = j - 1;
                }
                assert forall|i: int| 0 <= i < self.height implies (#[trigger] self.placed_pieces@[i])@.len() == self.width by {
                    if i > 0 && i <= ri {
                        assert(self.placed_pieces@[i] == pre[i - 1]);
                    } else if i > ri {
                        assert(self.placed_pieces@[i] == pre[i]);
                    }
                }
            } else {
                proof {
                    if j > 0 {
                        assert(before =~= top + g0.subrange(0, j - 1) + kept_rows(g0.subrange(j - 1, h)));
                        j = j - 1;
                    }
                }
            }
        }
        lines_cleared
    }

    pub fn width(&self) -> (r: u32)
        ensures
            r == self.width,
    {
        self.width
    }

    pub fn height(&self) -> (r: u32)
        ensures
            r == self.height,
    {
        self.height
    }

    /// The content of one cell.
    pub fn cell(&self, row: u32, col: u32) -> (r: Option<PieceType>)
        requires
            self.wf(),
            row < self.height,
            col < self.width,
        ensures
            r == self.grid()[row as int][col as int],
    {
        self.placed_pieces[row as usize][col as usize]
    }
}

/// The board leaves room at `col` for any kind to appear in its first rotation
/// state at row 0.
pub open spec fn spawn_fits(board: Board, col: int) -> bool {
    1 <= col && col + 4 <= board.width && 3 <= board.height
}

/// A piece whose cells all lie on the board has its origin near the board.
pub proof fn lemma_fits_position(board: Board, p: PieceState)
    requires
        board.wf(),
        p.wf(),
        board.fits(p),
    ensures
        -4 <= p.row <= board.height,
        -4 <= p.col <= board.width,
{
    lemma_cells_nonempty(p.piece_type, p.rotation as int, p.row as int, p.col as int);
    lemma_placed_cells_bounds(p.piece_type, p.rotation as int, p.row as int, p.col as int);
    assert(board.in_bounds(p.cells()[0]));
}

/// Where the board leaves room at the spawn column, a newly spawned piece of
/// any kind lies on the board.
pub proof fn lemma_spawn_fits(board: Board, kind: PieceType, col: int)
    requires
        board.wf(),
        spawn_fits(board, col),
    ensures
        ({
            let p = PieceState { piece_type: kind, row: 0, col: col as i8, rotation: 0 };
            p.wf() && board.fits(p)
        }),
{
    let p = PieceState { piece_type: kind, row: 0, col: col as i8, rotation: 0 };
    lemma_spawn_cells(kind, col);
    assert(catalog(kind).len() >= 1);
}

proof fn lemma_kept_all(g: Seq<Seq<Option<PieceType>>>)
    requires
        forall|i: int| 0 <= i < g.len() ==> !row_full(#[trigger] g[i]),
    ensures
        kept_rows(g) == g,
    decreases g.len(),
{
    if g.len() == 0 {
        g.lemma_filter_len(|row: Seq<Option<PieceType>>| !row_full(row));
        assert(kept_rows(g) =~= g);
    } else {
        let rest = g.drop_first();
        assert forall|i: int| 0 <= i < rest.len() implies !row_full(#[trigger] rest[i]) by {
            assert(rest[i] == g[i + 1]);
        }
        lemma_kept_all(rest);
        assert(g =~= seq![g[0]] + rest);
        lemma_kept_prepend(g[0], rest);
    }
}

proof fn lemma_kept_not_full(g: Seq<Seq<Option<PieceType>>>)
    ensures
        forall|i: int| 0 <= i < kept_rows(g).len() ==> !row_full(#[trigger] kept_rows(g)[i]),
{
    broadcast use vstd::seq_lib::group_filter_ensures;

}

/// A piece with a cell left of, right of or below the board is not in a valid
/// position, whatever the board holds.
pub proof fn lemma_outside_cell_invalid(board: Board, piece: PieceState, k: int)
    requires
        board.wf(),
        0 <= k < piece.cells().len(),
        piece.cells()[k].1 < 0 || piece.cells()[k].1 >= board.width || piece.cells()[k].0 >= board.height,
    ensures
        !board.valid(piece),
{
    assert(!board.in_bounds(piece.cells()[k]));
}

/// After clearing, a row that was not full sits lower by the number of full rows
/// that were below it.
pub proof fn lemma_cleared_shift(g: Seq<Seq<Option<PieceType>>>, width: int, i: int)
    requires
        0 <= i < g.len(),
        !row_full(g[i]),
    ensures
        cleared(g, width).len() == g.len(),
        cleared(g, width)[i + full_count(g.subrange(i + 1, g.len() as int))] == g[i],
{
    let a = g.subrange(0, i);
    let b = g.subrange(i + 1, g.len() as int);
    let pred = |row: Seq<Option<PieceType>>| !row_full(row);
    assert(g =~= a + (seq![g[i]] + b));
    Seq::filter_distributes_over_add(a, seq![g[i]] + b, pred);
    lemma_kept_prepend(g[i], b);
    g.lemma_filter_len(pred);
    assert(kept_rows(g) == kept_rows(a) + (seq![g[i]] + kept_rows(b)));
    assert(kept_rows(g)[kept_rows(a).len() as int] == g[i]);
    b.lemma_filter_len(pred);
}

/// Locking a piece and then clearing lines removes exactly the rows that are full
/// once the piece is in place (among them every row that was full before), fills
/// the top with as many empty rows, and moves every other row down by the number
/// of removed rows below it.
pub proof fn lemma_lock_then_clear(board: Board, piece: PieceState)
    requires
        board.wf(),
        piece.wf(),
        board.fits(piece),
    ensures
        ({
            let g = locked(board.grid(), piece.cells(), piece.piece_type);
            let out = cleared(g, board.width as int);
            &&& out.len() == board.height
            &&& forall|i: int| 0 <= i < board.height && row_full(board.grid()[i]) ==> row_full(#[trigger] g[i])
            &&& forall|i: int| 0 <= i < full_count(g) ==> #[trigger] out[i] == empty_row(board.width as int)
            &&& forall|i: int| 0 <= i < board.height && !row_full(#[trigger] g[i])
                ==> out[i + full_count(g.subrange(i + 1, board.height as int))] == g[i]
            &&& out.subrange(full_count(g), board.height as int) == kept_rows(g)
        }),
{
    let g = locked(board.grid(), piece.cells(), piece.piece_type);
    let out = cleared(g, board.width as int);
    g.lemma_filter_len(|row: Seq<Option<PieceType>>| !row_full(row));
    assert(board.grid().len() == board.height);
    assert forall|i: int| 0 <= i < board.height && row_full(board.grid()[i]) implies row_full(#[trigger] g[i]) by {
        assert forall|c: int| 0 <= c < g[i].len() implies (#[trigger] g[i][c]) is Some by {
            assert(board.grid()[i][c] is Some);
        }
    }
    assert forall|i: int| 0 <= i < board.height && !row_full(#[trigger] g[i])
        implies out[i + full_count(g.subrange(i + 1, board.height as int))] == g[i] by {
        lemma_cleared_shift(g, board.width as int, i);
    }
    assert(out.subrange(full_count(g), board.height as int) =~= kept_rows(g));
}

/// Clearing a board without full rows leaves its grid as it is and counts zero;
/// a cleared grid has no full row, so clearing it again changes nothing.
pub proof fn lemma_clear_without_full_rows(board: Board)
    requires
        board.wf(),
    ensures
        (forall|i: int| 0 <= i < board.height ==> !row_full(#[trigger] board.grid()[i]))
            ==> cleared(board.grid(), board.width as int) == board.grid() && full_count(board.grid()) == 0,
        full_count(cleared(board.grid(), board.width as int)) == 0,
        cleared(cleared(board.grid(), board.width as int), board.width as int) == cleared(board.grid(), board.width as int),
{
    let g = board.grid();
    let w = board.width as int;
    let out = cleared(g, w);
    g.lemma_filter_len(|row: Seq<Option<PieceType>>| !row_full(row));
    if forall|i: int| 0 <= i < board.height ==> !row_full(#[trigger] board.grid()[i]) {
        lemma_kept_all(g);
        assert(cleared(g, w) =~= g);
    }
    lemma_kept_not_full(g);
    assert forall|i: int| 0 <= i < out.len() implies !row_full(#[trigger] out[i]) by {
        if i < full_count(g) {
            assert(out[i][0] is None);
        } else {
            assert(out[i] == kept_rows(g)[i - full_count(g)]);
        }
    }
    lemma_kept_all(out);
    assert(cleared(out, w) =~= out);
}

} // verus!
