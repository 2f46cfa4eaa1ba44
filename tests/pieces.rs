use tetris_core::pieces::{Piece, PieceState, PieceType};

const ALL: [PieceType; 7] = [
    PieceType::Straight,
    PieceType::LLeft,
    PieceType::LRight,
    PieceType::Square,
    PieceType::S,
    PieceType::Z,
    PieceType::T,
];

#[test]
fn catalog_rotation_counts() {
    let counts: Vec<usize> = ALL.iter().map(|k| Piece::get_piece_data(k).rotations.len()).collect();
    assert_eq!(counts, vec![2, 4, 4, 1, 2, 2, 4]);
}

#[test]
fn every_rotation_covers_four_cells() {
    for kind in ALL {
        let n = Piece::get_piece_data(&kind).rotations.len();
        for r in 0..n {
            let p = PieceState { piece_type: kind, row: 5, col: 5, rotation: r as u8 };
            assert_eq!(p.iter_blocks().len(), 4, "{:?} rotation {}", kind, r);
        }
    }
}

#[test]
fn straight_spawn_cells() {
    let p = PieceState::new(PieceType::Straight, 3);
    assert_eq!(p.row, 0);
    assert_eq!(p.col, 3);
    assert_eq!(p.rotation, 0);
    assert_eq!(p.iter_blocks(), vec![(1, 3), (1, 4), (1, 5), (1, 6)]);
}

#[test]
fn straight_vertical_cells() {
    let p = PieceState { piece_type: PieceType::Straight, row: 5, col: 2, rotation: 1 };
    assert_eq!(p.iter_blocks(), vec![(4, 3), (5, 3), (6, 3), (7, 3)]);
}

#[test]
fn lleft_cells_follow_offsets() {
    let p = PieceState::new(PieceType::LLeft, 4);
    assert_eq!(p.iter_blocks(), vec![(1, 3), (1, 4), (1, 5), (2, 5)]);
    let q = PieceState { piece_type: PieceType::LLeft, row: 2, col: 4, rotation: 3 };
    assert_eq!(q.iter_blocks(), vec![(2, 5), (2, 6), (3, 5), (4, 5)]);
}

#[test]
fn rotate_wraps_modulo_count() {
    let mut p = PieceState::new(PieceType::T, 4);
    p.rotate();
    assert_eq!(p.rotation, 1);
    p.rotate();
    p.rotate();
    assert_eq!(p.rotation, 3);
    p.rotate();
    assert_eq!(p.rotation, 0);
    let mut sq = PieceState::new(PieceType::Square, 4);
    sq.rotate();
    assert_eq!(sq.rotation, 0);
}

#[test]
fn rotate_full_cycle_round_trip() {
    for kind in ALL {
        let n = Piece::get_piece_data(&kind).rotations.len();
        for start in 0..n {
            let original = PieceState { piece_type: kind, row: 3, col: 4, rotation: start as u8 };
            let mut p = original;
            p.rotate();
            for _ in 0..n - 1 {
                p.rotate();
            }
            assert_eq!(p, original);
        }
    }
}

#[test]
fn translate_moves_position() {
    let mut p = PieceState::new(PieceType::Z, 4);
    p.translate(2, -3);
    assert_eq!((p.row, p.col), (2, 1));
    assert_eq!(p.piece_type, PieceType::Z);
}

#[test]
fn colors_per_kind() {
    let names: Vec<&str> = ALL.iter().map(|k| PieceState::new(*k, 0).color()).collect();
    assert_eq!(names, vec!["light-blue", "blue", "orange", "yellow", "green", "red", "purple"]);
}

#[test]
fn piece_new_keeps_rotations() {
    let data = Piece::get_piece_data(&PieceType::Square);
    let piece = Piece::new(data.rotations);
    assert_eq!(piece.rotations.len(), 1);
    assert_eq!(piece.rotations[0].rows, vec![vec![1, 1], vec![1, 1]]);
    assert_eq!((piece.rotations[0].trans_row, piece.rotations[0].trans_col), (0, 0));
}
