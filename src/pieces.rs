//! The piece catalog and the state of the falling piece.
use vstd::prelude::*;

verus! {

/// The seven piece kinds.
#[derive(Clone, Copy, Debug, PartialEq, Eq, Hash, Structural)]
pub enum PieceType {
    Straight,
    LLeft,
    LRight,
    Square,
    S,
    Z,
    T,
}

/// One orientation of a piece: an occupancy grid (row-major, nonzero = filled)
/// and the offset that places the grid's origin relative to the piece position.
pub struct PieceRotation {
    pub trans_row: i8,
    pub trans_col: i8,
    pub rows: Vec<Vec<i8>>,
}

/// The ordered rotation states of one kind.
pub struct Piece {
    pub rotations: Vec<PieceRotation>,
}

/// Mathematical form of a rotation state: (row offset, column offset, grid).
pub type RotationModel = (int, int, Seq<Seq<i8>>);

impl PieceRotation {
    pub open spec fn model(&self) -> RotationModel {
        (self.trans_row as int, self.trans_col as int, self.rows@.map_values(|r: Vec<i8>| r@))
    }
}

impl Piece {
    pub open spec fn model(&self) -> Seq<RotationModel> {
        self.rotations@.map_values(|r: PieceRotation| r.model())
    }
}

/// The catalog: every kind's rotation states, in rotation order.
pub open spec fn catalog(kind: PieceType) -> Seq<RotationModel> {
    match kind {
        PieceType::Straight => seq![
            (1, 0, seq![seq![1i8, 1, 1, 1]]),
            (-1, 1, seq![seq![1i8], seq![1i8], seq![1i8], seq![1i8]]),
        ],
        PieceType::LLeft => seq![
            (1, -1, seq![seq![1i8, 1, 1], seq![0i8, 0, 1]]),
            (-1, 0, seq![seq![0i8, 1], seq![0i8, 1], seq![1i8, 1]]),
            (0, 0, seq![seq![1i8, 0, 0], seq![1i8, 1, 1]]),
            (0, 1, seq![seq![1i8, 1], seq![1i8, 0], seq![1i8, 0]]),
        ],
        PieceType::LRight => seq![
            (1, -1, seq![seq![1i8, 1, 1], seq![1i8, 0, 0]]),
            (-1, 0, seq![seq![1i8, 1], seq![0i8, 1], seq![0i8, 1]]),
            (0, 0, seq![seq![0i8, 0, 1], seq![1i8, 1, 1]]),
            (0, 1, seq![seq![1i8, 0], seq![1i8, 0], seq![1i8, 1]]),
        ],
        PieceType::Square => seq![(0, 0, seq![seq![1i8, 1], seq![1i8, 1]])],
        PieceType::S => seq![
            (1, 0, seq![seq![0i8, 1, 1], seq![1i8, 1, 0]]),
            (-1, 0, seq![seq![1i8, 0], seq![1i8, 1], seq![0i8, 1]]),
        ],
        PieceType::Z => seq![
            (1, 0, seq![seq![1i8, 1, 0], seq![0i8, 1, 1]]),
            (-1, 0, seq![seq![0i8, 1], seq![1i8, 1], seq![1i8, 0]]),
        ],
        PieceType::T => seq![
            (1, -1, seq![seq![1i8, 1, 1], seq![0i8, 1, 0]]),
            (-1, 0, seq![seq![0i8, 1], seq![1i8, 1], seq![0i8, 1]]),
            (0, 0, seq![seq![0i8, 1, 0], seq![1i8, 1, 1]]),
            (0, 1, seq![seq![1i8, 0], seq![1i8, 1], seq![1i8, 0]]),
        ],
    }
}

/// Number of rotation states of a kind.
pub open spec fn rotation_count(kind: PieceType) -> nat {
    catalog(kind).len()
}

fn rot(trans_row: i8, trans_col: i8, rows: Vec<Vec<i8>>) -> (r: PieceRotation)
    ensures
        r.trans_row == trans_row,
        r.trans_col == trans_col,
        r.rows == rows,
{
    PieceRotation { trans_row, trans_col, rows }
}

impl Piece {
    pub fn new(rotations: Vec<PieceRotation>) -> (r: Piece)
        ensures
            r.rotations == rotations,
    {
        Piece { rotations }
    }

    /// The catalog entry of a kind.
    pub fn get_piece_data(piece_type: &PieceType) -> (r: Piece)
        ensures
            r.model() == catalog(*piece_type),
    {
        let rotations = match piece_type {
            PieceType::Straight => vec![
                rot(1, 0, vec![vec![1, 1, 1, 1]]),
                rot(-1, 1, vec![vec![1], vec![1], vec![1], vec![1]]),
            ],
            PieceType::LLeft => vec![
                rot(1, -1, vec![vec![1, 1, 1], vec![0, 0, 1]]),
                rot(-1, 0, vec![vec![0, 1], vec![0, 1], vec![1, 1]]),
                rot(0, 0, vec![vec![1, 0, 0], vec![1, 1, 1]]),
                rot(0, 1, vec![vec![1, 1], vec![1, 0], vec![1, 0]]),
            ],
            PieceType::LRight => vec![
                rot(1, -1, vec![vec![1, 1, 1], vec![1, 0, 0]]),
                rot(-1, 0, vec![vec![1, 1], vec![0, 1], vec![0, 1]]),
                rot(0, 0, vec![vec![0, 0, 1], vec![1, 1, 1]]),
                rot(0, 1, vec![vec![1, 0], vec![1, 0], vec![1, 1]]),
            ],
            PieceType::Square => vec![rot(0, 0, vec![vec![1, 1], vec![1, 1]])],
            PieceType::S => vec![
                rot(1, 0, vec![vec![0, 1, 1], vec![1, 1, 0]]),
                rot(-1, 0, vec![vec![1, 0], vec![1, 1], vec![0, 1]]),
            ],
            PieceType::Z => vec![
                rot(1, 0, vec![vec![1, 1, 0], vec![0, 1, 1]]),
                rot(-1, 0, vec![vec![0, 1], vec![1, 1], vec![1, 0]]),
            ],
            PieceType::T => vec![
                rot(1, -1, vec![vec![1, 1, 1], vec![0, 1, 0]]),
                rot(-1, 0, vec![vec![0, 1], vec![1, 1], vec![0, 1]]),
                rot(0, 0, vec![vec![0, 1, 0], vec![1, 1, 1]]),
                rot(0, 1, vec![vec![1, 0], vec![1, 1], vec![1, 0]]),
            ],
        };
        let r = Piece::new(rotations);
        assert(r.model() =~~= catalog(*piece_type));
        r
    }
}

/// Filled cells among the first `n` columns of grid row `row`, as local `(r, c)`.
pub open spec fn row_cells(row: Seq<i8>, r: int, n: int) -> Seq<(int, int)>
    decreases n,
{
    if n <= 0 {
        Seq::empty()
    } else if row[n - 1] != 0 {
        row_cells(row, r, n - 1).push((r, n - 1))
    } else {
        row_cells(row, r, n - 1)
    }
}

/// Filled cells of the first `n` rows of a grid, row by row, left to right.
pub open spec fn grid_cells(rows: Seq<Seq<i8>>, n: int) -> Seq<(int, int)>
    decreases n,
{
    if n <= 0 {
        Seq::empty()
    } else {
        grid_cells(rows, n - 1) + row_cells(rows[n - 1], n - 1, rows[n - 1].len() as int)
    }
}

/// Board cells covered by a rotation state placed with its origin at `(row, col)`.
pub open spec fn placed_cells(m: RotationModel, row: int, col: int) -> Seq<(int, int)> {
    grid_cells(m.2, m.2.len() as int).map_values(|p: (int, int)| (row + p.0 + m.0, col + p.1 + m.1))
}

/// Integer form of a list of `i8` coordinates.
pub open spec fn coords(v: Seq<(i8, i8)>) -> Seq<(int, int)> {
    v.map_values(|p: (i8, i8)| (p.0 as int, p.1 as int))
}

/// Every rotation grid has at most four rows of at most four columns, and its
/// offsets lie in `-1..=1`.
pub proof fn lemma_catalog_bounds(kind: PieceType, i: int)
    requires
        0 <= i < rotation_count(kind),
    ensures
        -1 <= catalog(kind)[i].0 <= 1,
        -1 <= catalog(kind)[i].1 <= 1,
        1 <= catalog(kind)[i].2.len() <= 4,
        forall|r: int| 0 <= r < catalog(kind)[i].2.len() ==> #[trigger] catalog(kind)[i].2[r].len() <= 4,
{
}

proof fn lemma_row_cells_bounds(row: Seq<i8>, r: int, n: int)
    requires
        0 <= n <= row.len(),
    ensures
        row_cells(row, r, n).len() <= n,
        forall|k: int| 0 <= k < row_cells(row, r, n).len() ==> {
            let p = #[trigger] row_cells(row, r, n)[k];
            p.0 == r && 0 <= p.1 < n && row[p.1] != 0
        },
    decreases n,
{
    if n > 0 {
        lemma_row_cells_bounds(row, r, n - 1);
    }
}

proof fn lemma_grid_cells_bounds(rows: Seq<Seq<i8>>, n: int)
    requires
        0 <= n <= rows.len(),
    ensures
        forall|k: int| 0 <= k < grid_cells(rows, n).len() ==> {
            let p = #[trigger] grid_cells(rows, n)[k];
            0 <= p.0 < n && 0 <= p.1 < rows[p.0].len() && rows[p.0][p.1] != 0
        },
    decreases n,
{
    if n > 0 {
        lemma_grid_cells_bounds(rows, n - 1);
        let row = rows[n - 1];
        lemma_row_cells_bounds(row, n - 1, row.len() as int);
        let a = grid_cells(rows, n - 1);
        let b = row_cells(row, n - 1, row.len() as int);
        assert forall|k: int| 0 <= k < grid_cells(rows, n).len() implies {
            let p = #[trigger] grid_cells(rows, n)[k];
            0 <= p.0 < n && 0 <= p.1 < rows[p.0].len() && rows[p.0][p.1] != 0
        } by {
            if k < a.len() {
                assert(grid_cells(rows, n)[k] == a[k]);
            } else {
                assert(grid_cells(rows, n)[k] == b[k - a.len()]);
            }
        }
    }
}

/// Every cell of a placed rotation state of the catalog lies within one row or
/// column of the grid's span from the placement origin.
pub proof fn lemma_placed_cells_bounds(kind: PieceType, i: int, row: int, col: int)
    requires
        0 <= i < rotation_count(kind),
    ensures
        forall|k: int| 0 <= k < placed_cells(catalog(kind)[i], row, col).len() ==> {
            let p = #[trigger] placed_cells(catalog(kind)[i], row, col)[k];
            row - 1 <= p.0 <= row + 4 && col - 1 <= p.1 <= col + 4
        },
{
    let m = catalog(kind)[i];
    lemma_catalog_bounds(kind, i);
    lemma_grid_cells_bounds(m.2, m.2.len() as int);
    assert forall|k: int| 0 <= k < placed_cells(m, row, col).len() implies {
        let p = #[trigger] placed_cells(m, row, col)[k];
        row - 1 <= p.0 <= row + 4 && col - 1 <= p.1 <= col + 4
    } by {
        let q = grid_cells(m.2, m.2.len() as int)[k];
        assert(m.2[q.0].len() <= 4);
    }
}

proof fn lemma_row_cells_nonempty(row: Seq<i8>, r: int, n: int, c: int)
    requires
        0 <= c < n <= row.len(),
        row[c] != 0,
    ensures
        row_cells(row, r, n).len() >= 1,
    decreases n,
{
    if c < n - 1 {
        lemma_row_cells_nonempty(row, r, n - 1, c);
    }
}

proof fn lemma_grid_cells_nonempty(rows: Seq<Seq<i8>>, n: int, c: int)
    requires
        1 <= n <= rows.len(),
        0 <= c < rows[0].len(),
        rows[0][c] != 0,
    ensures
        grid_cells(rows, n).len() >= 1,
    decreases n,
{
    if n == 1 {
        lemma_row_cells_nonempty(rows[0], 0, rows[0].len() as int, c);
        assert(grid_cells(rows, 0).len() == 0);
    } else {
        lemma_grid_cells_nonempty(rows, n - 1, c);
    }
}

/// Every rotation state covers at least one cell.
pub proof fn lemma_cells_nonempty(kind: PieceType, i: int, row: int, col: int)
    requires
        0 <= i < rotation_count(kind),
    ensures
        placed_cells(catalog(kind)[i], row, col).len() >= 1,
{
    let g = catalog(kind)[i].2;
    lemma_catalog_bounds(kind, i);
    let c = if g[0][0] != 0 { 0int } else if g[0][1] != 0 { 1int } else { 2int };
    lemma_grid_cells_nonempty(g, g.len() as int, c);
}

/// A piece in its first rotation state at row 0 and column `col` covers only
/// rows 0 to 2 and columns `col - 1` to `col + 3`.
pub proof fn lemma_spawn_cells(kind: PieceType, col: int)
    ensures
        forall|k: int| 0 <= k < placed_cells(catalog(kind)[0], 0, col).len() ==> {
            let p = #[trigger] placed_cells(catalog(kind)[0], 0, col)[k];
            0 <= p.0 <= 2 && col - 1 <= p.1 <= col + 3
        },
{
    let m = catalog(kind)[0];
    lemma_grid_cells_bounds(m.2, m.2.len() as int);
    assert forall|k: int| 0 <= k < placed_cells(m, 0, col).len() implies {
        let p = #[trigger] placed_cells(m, 0, col)[k];
        0 <= p.0 <= 2 && col - 1 <= p.1 <= col + 3
    } by {
        let q = grid_cells(m.2, m.2.len() as int)[k];
        assert(0 <= q.0 < m.2.len());
        assert(m.2[q.0].len() + m.1 <= 4);
    }
}

/// The piece state after one step of rotation.
pub open spec fn rotated(p: PieceState) -> PieceState {
    PieceState { rotation: ((p.rotation + 1) % (rotation_count(p.piece_type) as int)) as u8, ..p }
}

/// The piece state after `n` steps of rotation.
pub open spec fn rotated_times(p: PieceState, n: nat) -> PieceState
    decreases n,
{
    if n == 0 {
        p
    } else {
        rotated(rotated_times(p, (n - 1) as nat))
    }
}

proof fn lemma_rotated_times_index(p: PieceState, n: nat)
    requires
        p.wf(),
    ensures
        rotated_times(p, n) == (PieceState {
            rotation: ((p.rotation + n) % (rotation_count(p.piece_type) as int)) as u8,
            ..p
        }),
    decreases n,
{
    lemma_catalog_bounds(p.piece_type, p.rotation as int);
    let c = rotation_count(p.piece_type) as int;
    if n == 0 {
        vstd::arithmetic::div_mod::lemma_small_mod(p.rotation as nat, c as nat);
    } else {
        lemma_rotated_times_index(p, (n - 1) as nat);
        let prev = (p.rotation + n - 1) % c;
        assert(0 <= prev < c) by {
            vstd::arithmetic::div_mod::lemma_mod_bound(p.rotation + n - 1, c);
        }
        assert(rotated_times(p, (n - 1) as nat).rotation == prev);
        assert(((prev + 1) % c) == ((p.rotation + n) % c)) by (nonlinear_arith)
            requires
                prev == (p.rotation + n - 1) % c,
                c > 0,
        {
            vstd::arithmetic::div_mod::lemma_add_mod_noop(p.rotation + n - 1, 1, c);
        }
    }
}

/// Rotating a piece as many times as its kind has rotation states brings it
/// back to the state it started in.
pub proof fn lemma_rotation_cycle(p: PieceState)
    requires
        p.wf(),
    ensures
        rotated_times(p, rotation_count(p.piece_type)) == p,
{
    lemma_rotated_times_index(p, rotation_count(p.piece_type));
    let c = rotation_count(p.piece_type) as int;
    vstd::arithmetic::div_mod::lemma_mod_add_multiples_vanish(p.rotation as int, c);
    vstd::arithmetic::div_mod::lemma_small_mod(p.rotation as nat, c as nat);
}

/// The fixed display identity of each kind.
pub open spec fn color_name(kind: PieceType) -> Seq<char> {
    match kind {
        PieceType::Straight => "light-blue"@,
        PieceType::LLeft => "blue"@,
        PieceType::LRight => "orange"@,
        PieceType::Square => "yellow"@,
        PieceType::Z => "red"@,
        PieceType::S => "green"@,
        PieceType::T => "purple"@,
    }
}

/// The live falling piece: its kind, the board position of its grid origin and
/// the index of its rotation state.
#[derive(Clone, Copy, Debug, PartialEq, Eq, Structural)]
pub struct PieceState {
    pub piece_type: PieceType,
    pub row: i8,
    pub col: i8,
    pub rotation: u8,
}

/// Bound on how far a piece position may stray from the origin.
pub const POSITION_LIMIT: i8 = 100;

impl PieceState {
    /// The rotation index selects a state of the kind, and the position is
    /// small enough that every covered cell fits an `i8`.
    pub open spec fn wf(&self) -> bool {
        &&& (self.rotation as int) < rotation_count(self.piece_type)
        &&& -POSITION_LIMIT <= self.row <= POSITION_LIMIT
        &&& -POSITION_LIMIT <= self.col <= POSITION_LIMIT
    }

    /// The rotation state in use.
    pub open spec fn shape(&self) -> RotationModel {
        catalog(self.piece_type)[self.rotation as int]
    }

    /// The board cells the piece covers, in grid order.
    pub open spec fn cells(&self) -> Seq<(int, int)> {
        placed_cells(self.shape(), self.row as int, self.col as int)
    }

    /// A new piece in its first rotation state at row 0 and the given column.
    pub fn new(piece_type: PieceType, column: i8) -> (r: PieceState)
        ensures
            r == (PieceState { piece_type, row: 0, col: column, rotation: 0 }),
    {
        PieceState { piece_type, row: 0, col: column, rotation: 0 }
    }

    /// The board cells the piece covers, row by row and left to right within
    /// its grid.
    pub fn iter_blocks(&self) -> (r: Vec<(i8, i8)>)
        requires
            self.wf(),
        ensures
            coords(r@) == self.cells(),
    {
        let piece = Piece::get_piece_data(&self.piece_type);
        let rotation = &piece.rotations[self.rotation as usize];
        let ghost m = self.shape();
        assert(rotation.model() == m);
        proof {
            lemma_catalog_bounds(self.piece_type, self.rotation as int);
        }
        let ghost shift = |p: (int, int)| (self.row + p.0 + m.0, self.col + p.1 + m.1);
        let mut out: Vec<(i8, i8)> = Vec::new();
        let mut r: usize = 0;
        while r < rotation.rows.len()
            invariant
                r <= rotation.rows.len() == m.2.len() <= 4,
                rotation.model() == m,
                -1 <= m.0 <= 1,
                -1 <= m.1 <= 1,
                self.wf(),
                shift == (|p: (int, int)| (self.row + p.0 + m.0, self.col + p.1 + m.1)),
                forall|i: int| 0 <= i < m.2.len() ==> #[trigger] m.2[i].len() <= 4,
                coords(out@) == grid_cells(m.2, r as int).map_values(shift),
            decreases rotation.rows.len() - r,
        {
            let row = &rotation.rows[r];
            assert(row@ == m.2[r as int]);
            assert(rotation.trans_row as int == m.0 && rotation.trans_col as int == m.1);
            let mut c: usize = 0;
            while c < row.len()
                invariant
                    r < rotation.rows.len() == m.2.len() <= 4,
                    c <= row.len() <= 4,
                    row@ == m.2[r as int],
                    rotation.trans_row as int == m.0,
                    rotation.trans_col as int == m.1,
                    -1 <= m.0 <= 1,
                    -1 <= m.1 <= 1,
                    self.wf(),
                    shift == (|p: (int, int)| (self.row + p.0 + m.0, self.col + p.1 + m.1)),
                    coords(out@) == (grid_cells(m.2, r as int) + row_cells(m.2[r as int], r as int, c as int)).map_values(shift),
                decreases row.len() - c,
            {
                let ghost before = grid_cells(m.2, r as int) + row_cells(m.2[r as int], r as int, c as int);
                if row[c] != 0 {
                    let cell = (
                        self.row + r as i8 + rotation.trans_row,
                        self.col + c as i8 + rotation.trans_col,
                    );
                    let ghost old_out = out@;
                    out.push(cell);
                    assert(coords(out@) =~= coords(old_out).push((cell.0 as int, cell.1 as int)));
                    assert(before.push((r as int, c as int)).map_values(shift) =~= before.map_values(shift).push(shift((r as int, c as int))));
                    assert(grid_cells(m.2, r as int) + row_cells(m.2[r as int], r as int, c + 1) =~= before.push((r as int, c as int)));
                    assert(coords(out@) =~= before.push((r as int, c as int)).map_values(shift));
                } else {
                    assert(grid_cells(m.2, r as int) + row_cells(m.2[r as int], r as int, c + 1) =~= before);
                }
                c += 1;
            }
            assert(grid_cells(m.2, r + 1) == grid_cells(m.2, r as int) + row_cells(m.2[r as int], r as int, c as int));
            r += 1;
        }
        assert(grid_cells(m.2, r as int).map_values(shift) =~= self.cells());
        out
    }

    /// Moves the piece by the given number of rows and columns, without any
    /// board check.
    pub fn translate(&mut self, delta_row: i8, delta_col: i8)
        requires
            -POSITION_LIMIT <= old(self).row + delta_row <= POSITION_LIMIT,
            -POSITION_LIMIT <= old(self).col + delta_col <= POSITION_LIMIT,
        ensures
            *final(self) == (PieceState {
                row: (old(self).row + delta_row) as i8,
                col: (old(self).col + delta_col) as i8,
                ..*old(self)
            }),
    {
        self.row = self.row + delta_row;
        self.col = self.col + delta_col;
    }

    /// The display identity of the piece's kind.
    pub fn color(&self) -> (r: &'static str)
        ensures
            r@ == color_name(self.piece_type),
    {
        match self.piece_type {
            PieceType::Straight => "light-blue",
            PieceType::LLeft => "blue",
            PieceType::LRight => "orange",
            PieceType::Square => "yellow",
            PieceType::Z => "red",
            PieceType::S => "green",
            PieceType::T => "purple",
        }
    }

    /// Advances to the next rotation state, wrapping to the first after the last.
    pub fn rotate(&mut self)
        requires
            old(self).wf(),
        ensures
            final(self).wf(),
            *final(self) == rotated(*old(self)),
    {
        let count = Piece::get_piece_data(&self.piece_type).rotations.len();
        assert(count == rotation_count(self.piece_type));
        proof {
            lemma_catalog_bounds(self.piece_type, self.rotation as int);
            assert(count <= 4) by {
                assert(rotation_count(self.piece_type) <= 4);
            }
        }
        self.rotation = ((self.rotation + 1) % count as u8) as u8;
    }
}

} // verus!
