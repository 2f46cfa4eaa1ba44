use tetris_core::board::Board;
use tetris_core::pieces::{PieceState, PieceType};

fn fill_row(board: &mut Board, row: usize, cols: std::ops::Range<usize>) {
    for c in cols {
        board.placed_pieces[row][c] = Some(PieceType::Square);
    }
}

fn snapshot(board: &Board) -> Vec<Vec<Option<PieceType>>> {
    board.placed_pieces.clone()
}

#[test]
fn new_board_is_empty_ten_by_twenty() {
    let b = Board::new();
    assert_eq!((b.width(), b.height()), (10, 20));
    assert_eq!(b.placed_pieces.len(), 20);
    assert!(b.placed_pieces.iter().all(|r| r.len() == 10 && r.iter().all(|c| c.is_none())));
}

#[test]
fn with_size_dimensions() {
    let b = Board::with_size(6, 8);
    assert_eq!((b.width(), b.height()), (6, 8));
    assert_eq!(b.cell(7, 5), None);
}

#[test]
fn valid_on_empty_board() {
    let b = Board::new();
    assert!(b.is_valid_position(&PieceState::new(PieceType::Straight, 3)));
    assert!(b.is_valid_position(&PieceState::new(PieceType::Straight, 6)));
}

#[test]
fn invalid_left_of_board() {
    let b = Board::new();
    assert!(!b.is_valid_position(&PieceState::new(PieceType::Straight, -1)));
}

#[test]
fn invalid_right_of_board() {
    let b = Board::new();
    assert!(!b.is_valid_position(&PieceState::new(PieceType::Straight, 7)));
}

#[test]
fn invalid_below_board() {
    let b = Board::new();
    let p = PieceState { piece_type: PieceType::Straight, row: 19, col: 3, rotation: 0 };
    assert!(!b.is_valid_position(&p));
    let q = PieceState { piece_type: PieceType::Straight, row: 18, col: 3, rotation: 0 };
    assert!(b.is_valid_position(&q));
}

#[test]
fn invalid_above_board() {
    let b = Board::new();
    let p = PieceState { piece_type: PieceType::Straight, row: 0, col: 3, rotation: 1 };
    assert!(!b.is_valid_position(&p));
}

#[test]
fn invalid_on_occupied_cell() {
    let mut b = Board::new();
    b.placed_pieces[1][5] = Some(PieceType::T);
    assert!(!b.is_valid_position(&PieceState::new(PieceType::Straight, 3)));
    assert!(b.is_valid_position(&PieceState::new(PieceType::Straight, 6)));
}

#[test]
fn lock_writes_kind_into_cells() {
    let mut b = Board::new();
    let p = PieceState { piece_type: PieceType::T, row: 10, col: 4, rotation: 0 };
    b.lock_piece(&p);
    for (r, c) in [(11, 3), (11, 4), (11, 5), (12, 4)] {
        assert_eq!(b.cell(r, c), Some(PieceType::T));
    }
    let filled: usize = b.placed_pieces.iter().map(|r| r.iter().filter(|c| c.is_some()).count()).sum();
    assert_eq!(filled, 4);
}

#[test]
fn clear_lines_without_full_rows_is_identity() {
    let mut b = Board::new();
    fill_row(&mut b, 19, 0..9);
    fill_row(&mut b, 18, 2..5);
    let before = snapshot(&b);
    assert_eq!(b.clear_lines(), 0);
    assert_eq!(snapshot(&b), before);
    assert_eq!(b.clear_lines(), 0);
    assert_eq!(snapshot(&b), before);
}

#[test]
fn clear_lines_one_to_four_rows() {
    for n in 1..=4usize {
        let mut b = Board::new();
        for r in 0..n {
            fill_row(&mut b, 19 - r, 0..10);
        }
        b.placed_pieces[19 - n][0] = Some(PieceType::T);
        assert_eq!(b.clear_lines(), n as u32);
        assert_eq!(b.cell(19, 0), Some(PieceType::T));
        assert!(b.placed_pieces[..19].iter().all(|r| r.iter().all(|c| c.is_none())));
    }
}

#[test]
fn clear_lines_shifts_rows_by_cleared_count_below() {
    let mut b = Board::new();
    fill_row(&mut b, 19, 0..10);
    b.placed_pieces[18][1] = Some(PieceType::S);
    fill_row(&mut b, 17, 0..10);
    b.placed_pieces[16][2] = Some(PieceType::Z);
    fill_row(&mut b, 15, 0..10);
    b.placed_pieces[14][3] = Some(PieceType::LLeft);
    assert_eq!(b.clear_lines(), 3);
    assert_eq!(b.cell(19, 1), Some(PieceType::S));
    assert_eq!(b.cell(18, 2), Some(PieceType::Z));
    assert_eq!(b.cell(17, 3), Some(PieceType::LLeft));
    let filled: usize = b.placed_pieces.iter().map(|r| r.iter().filter(|c| c.is_some()).count()).sum();
    assert_eq!(filled, 3);
}

#[test]
fn clear_lines_adjacent_full_rows_rescan() {
    let mut b = Board::with_size(4, 5);
    fill_row(&mut b, 4, 0..4);
    fill_row(&mut b, 3, 0..4);
    b.placed_pieces[2][0] = Some(PieceType::T);
    assert_eq!(b.clear_lines(), 2);
    assert_eq!(b.cell(4, 0), Some(PieceType::T));
    assert_eq!(b.cell(3, 0), None);
}

#[test]
fn lock_then_clear_removes_completed_row() {
    let mut b = Board::new();
    fill_row(&mut b, 19, 0..6);
    fill_row(&mut b, 18, 0..3);
    let p = PieceState { piece_type: PieceType::Straight, row: 18, col: 6, rotation: 0 };
    assert!(b.is_valid_position(&p));
    b.lock_piece(&p);
    assert_eq!(b.clear_lines(), 1);
    assert_eq!(b.cell(19, 0), Some(PieceType::Square));
    assert_eq!(b.cell(19, 3), None);
    assert!(b.placed_pieces[18].iter().all(|c| c.is_none()));
}

#[test]
fn default_board_is_new_board() {
    let b = Board::default();
    assert_eq!((b.width(), b.height()), (10, 20));
    assert!(b.placed_pieces.iter().all(|r| r.iter().all(|c| c.is_none())));
}

#[test]
fn largest_board() {
    let mut b = Board::with_size(96, 96);
    let p = PieceState { piece_type: PieceType::Straight, row: 94, col: 92, rotation: 0 };
    assert!(b.is_valid_position(&p));
    b.lock_piece(&p);
    assert_eq!(b.cell(95, 95), Some(PieceType::Straight));
    assert_eq!(b.clear_lines(), 0);
}
