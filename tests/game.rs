use tetris_core::game::{line_clear_score, Game};
use tetris_core::pieces::{PieceState, PieceType};

fn game_with(piece: PieceState) -> Game {
    let mut g = Game::with_config(10, 20, 1000, 3, 5);
    g.current_piece = piece;
    g
}

fn filled(g: &Game) -> usize {
    g.board.placed_pieces.iter().map(|r| r.iter().filter(|c| c.is_some()).count()).sum()
}

#[test]
fn score_table() {
    let scores: Vec<u32> = (0..6).map(line_clear_score).collect();
    assert_eq!(scores, vec![0, 100, 300, 500, 800, 0]);
}

#[test]
fn new_game_defaults() {
    let g = Game::new(1);
    assert_eq!((g.board.width(), g.board.height()), (10, 20));
    assert_eq!(g.score(), 0);
    assert_eq!(g.held_piece(), None);
    assert!(g.can_hold_this_turn);
    assert_eq!(g.current_piece().row, 0);
    assert_eq!(g.current_piece().col, 3);
    assert_eq!(g.current_piece().rotation, 0);
    assert_eq!(g.drop_interval_ms, 1000);
    assert_eq!(g.time_since_last_drop, 0);
    assert!(g.board.placed_pieces.iter().all(|r| r.len() == 10 && r.iter().all(|c| c.is_none())));
    assert_eq!(g.board.placed_pieces.len(), 20);
    assert_eq!(g.bag.index, 2);
    assert_eq!(g.current_piece().piece_type, g.bag.pieces[0]);
    assert_eq!(g.next_piece(), g.bag.pieces[1]);
}

#[test]
fn soft_drop_straight_until_lock() {
    let mut g = game_with(PieceState::new(PieceType::Straight, 3));
    let next = g.next_piece();
    for expected_row in 1..=18 {
        g.soft_drop();
        assert_eq!(g.current_piece().row, expected_row);
        assert_eq!(g.current_piece().piece_type, PieceType::Straight);
    }
    g.soft_drop();
    let bottom: Vec<bool> = g.board.placed_pieces[19].iter().map(|c| c.is_some()).collect();
    let mut expected = vec![false; 10];
    for c in 3..=6 {
        expected[c] = true;
    }
    assert_eq!(bottom, expected);
    assert_eq!(g.board.cell(19, 3), Some(PieceType::Straight));
    assert_eq!(filled(&g), 4);
    assert_eq!(g.score(), 0);
    assert_eq!(g.current_piece(), PieceState::new(next, 3));
    assert!(g.can_hold_this_turn);
}

#[test]
fn completing_bottom_row_scores_one_line() {
    let vertical = PieceState { piece_type: PieceType::Straight, row: 1, col: 8, rotation: 1 };
    let mut g = game_with(vertical);
    for c in 0..9 {
        g.board.placed_pieces[19][c] = Some(PieceType::Square);
    }
    g.hard_drop_current_piece();
    assert_eq!(g.score(), 100);
    assert_eq!(filled(&g), 3);
    for r in 17..20 {
        assert_eq!(g.board.cell(r, 9), Some(PieceType::Straight));
    }
    assert_eq!(g.board.cell(19, 0), None);
}

#[test]
fn four_lines_score_eight_hundred() {
    let vertical = PieceState { piece_type: PieceType::Straight, row: 1, col: 8, rotation: 1 };
    let mut g = game_with(vertical);
    for r in 16..20 {
        for c in 0..9 {
            g.board.placed_pieces[r][c] = Some(PieceType::T);
        }
    }
    g.hard_drop_current_piece();
    assert_eq!(g.score(), 800);
    assert_eq!(filled(&g), 0);
}

#[test]
fn two_and_three_lines_scores() {
    for (rows, points) in [(2usize, 300u32), (3, 500)] {
        let vertical = PieceState { piece_type: PieceType::Straight, row: 1, col: 8, rotation: 1 };
        let mut g = game_with(vertical);
        for r in 20 - rows..20 {
            for c in 0..9 {
                g.board.placed_pieces[r][c] = Some(PieceType::T);
            }
        }
        g.hard_drop_current_piece();
        assert_eq!(g.score(), points);
    }
}

#[test]
fn hard_drop_lands_at_ghost() {
    let mut g = game_with(PieceState::new(PieceType::T, 4));
    g.board.placed_pieces[15][4] = Some(PieceType::S);
    let ghost = g.ghost_piece();
    assert_eq!((ghost.row, ghost.col, ghost.rotation), (12, 4, 0));
    assert_eq!(g.current_piece().row, 0);
    g.hard_drop_current_piece();
    for (r, c) in [(13, 3), (13, 4), (13, 5), (14, 4)] {
        assert_eq!(g.board.cell(r, c), Some(PieceType::T));
    }
    assert_eq!(g.board.cell(15, 4), Some(PieceType::S));
    assert_eq!(filled(&g), 5);
}

#[test]
fn ghost_on_empty_board() {
    let g = game_with(PieceState::new(PieceType::Straight, 3));
    let ghost = g.ghost_piece();
    assert_eq!((ghost.row, ghost.col, ghost.rotation), (18, 3, 0));
}

#[test]
fn move_left_and_right_stop_at_walls() {
    let mut g = game_with(PieceState::new(PieceType::Straight, 3));
    for _ in 0..10 {
        g.move_cursor_left();
    }
    assert_eq!(g.current_piece().col, 0);
    for _ in 0..10 {
        g.move_cursor_right();
    }
    assert_eq!(g.current_piece().col, 6);
}

#[test]
fn move_blocked_by_settled_cell() {
    let mut g = game_with(PieceState::new(PieceType::Straight, 3));
    g.board.placed_pieces[1][2] = Some(PieceType::Z);
    g.move_cursor_left();
    assert_eq!(g.current_piece().col, 3);
    g.move_cursor_right();
    assert_eq!(g.current_piece().col, 4);
}

#[test]
fn rotate_in_open_space() {
    let start = PieceState { piece_type: PieceType::T, row: 5, col: 4, rotation: 0 };
    let mut g = game_with(start);
    g.rotate_current_piece();
    assert_eq!(g.current_piece(), PieceState { rotation: 1, ..start });
}

#[test]
fn rotate_kicks_off_wall() {
    // vertical straight against the right wall: the horizontal state does not fit
    let start = PieceState { piece_type: PieceType::Straight, row: 5, col: 8, rotation: 1 };
    let mut g = game_with(start);
    g.rotate_current_piece();
    let p = g.current_piece();
    assert_eq!(p.rotation, 0);
    assert_eq!((p.row, p.col), (5, 6));
}

#[test]
fn rotate_first_kick_left() {
    let start = PieceState { piece_type: PieceType::Straight, row: 5, col: 7, rotation: 1 };
    let mut g = game_with(start);
    g.rotate_current_piece();
    let p = g.current_piece();
    assert_eq!((p.rotation, p.row, p.col), (0, 5, 6));
}

#[test]
fn rotate_refused_when_no_kick_fits() {
    let start = PieceState { piece_type: PieceType::Straight, row: 5, col: 4, rotation: 1 };
    let mut g = game_with(start);
    for r in 0..20 {
        for c in 0..10 {
            if c != 5 {
                g.board.placed_pieces[r][c] = Some(PieceType::Square);
            }
        }
    }
    g.rotate_current_piece();
    assert_eq!(g.current_piece(), start);
}

#[test]
fn hold_into_empty_slot_then_refused() {
    let mut g = game_with(PieceState::new(PieceType::Z, 3));
    let next = g.next_piece();
    g.hold_piece();
    assert_eq!(g.held_piece(), Some(PieceType::Z));
    assert_eq!(g.current_piece(), PieceState::new(next, 3));
    assert!(!g.can_hold_this_turn);
    let (held, cur, nxt, index) = (g.held_piece(), g.current_piece(), g.next_piece(), g.bag.index);
    g.hold_piece();
    assert_eq!((g.held_piece(), g.current_piece(), g.next_piece(), g.bag.index), (held, cur, nxt, index));
    assert!(!g.can_hold_this_turn);
}

#[test]
fn hold_swaps_with_held_kind() {
    let mut g = game_with(PieceState::new(PieceType::Z, 3));
    g.held_piece = Some(PieceType::LRight);
    let next = g.next_piece();
    g.hold_piece();
    assert_eq!(g.held_piece(), Some(PieceType::Z));
    assert_eq!(g.current_piece(), PieceState::new(PieceType::LRight, 3));
    assert_eq!(g.next_piece(), next);
    assert!(!g.can_hold_this_turn);
    let cur = g.current_piece();
    g.hold_piece();
    assert_eq!(g.current_piece(), cur);
    assert_eq!(g.held_piece(), Some(PieceType::Z));
}

#[test]
fn lock_re_enables_hold() {
    let mut g = game_with(PieceState::new(PieceType::Z, 3));
    g.held_piece = Some(PieceType::T);
    g.hold_piece();
    assert!(!g.can_hold_this_turn);
    g.hard_drop_current_piece();
    assert!(g.can_hold_this_turn);
    assert_eq!(g.held_piece(), Some(PieceType::Z));
}

#[test]
fn tick_accumulates_until_interval() {
    let mut g = game_with(PieceState::new(PieceType::Straight, 3));
    g.tick(999);
    assert_eq!(g.current_piece().row, 0);
    assert_eq!(g.time_since_last_drop, 999);
    g.tick(1);
    assert_eq!(g.current_piece().row, 1);
    assert_eq!(g.time_since_last_drop, 0);
}

#[test]
fn tick_applies_each_elapsed_interval() {
    let mut g = game_with(PieceState::new(PieceType::Straight, 3));
    g.tick(2500);
    assert_eq!(g.current_piece().row, 2);
    assert_eq!(g.time_since_last_drop, 500);
}

#[test]
fn tick_locks_at_bottom() {
    let bottom = PieceState { piece_type: PieceType::Straight, row: 18, col: 3, rotation: 0 };
    let mut g = game_with(bottom);
    let next = g.next_piece();
    g.tick(1000);
    assert_eq!(g.board.cell(19, 3), Some(PieceType::Straight));
    assert_eq!(g.current_piece(), PieceState::new(next, 3));
}
