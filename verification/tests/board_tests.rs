use connect_four::bitboard::{generate_win_masks, Bitboard, Move};
use connect_four::board::{has_window, Board, Win};

fn bit(x: u8, y: u8) -> u64 {
    1u64 << (8 * x + y)
}

fn empty_board() -> Board {
    Board { red: Bitboard::new(), yellow: Bitboard::new(), red_to_play: true }
}

#[test]
fn win_masks_match_independent_regeneration() {
    let masks = generate_win_masks();
    assert_eq!(masks.len(), 69);
    let mut expected: Vec<u64> = Vec::new();
    for x in 0..7u8 {
        for y in 0..3u8 {
            expected.push(bit(x, y) | bit(x, y + 1) | bit(x, y + 2) | bit(x, y + 3));
        }
    }
    for x in 0..4u8 {
        for y in 0..6u8 {
            expected.push(bit(x, y) | bit(x + 1, y) | bit(x + 2, y) | bit(x + 3, y));
        }
    }
    for x in 0..4u8 {
        for y in 0..3u8 {
            expected.push(bit(x, y) | bit(x + 1, y + 1) | bit(x + 2, y + 2) | bit(x + 3, y + 3));
            expected.push(bit(x, y + 3) | bit(x + 1, y + 2) | bit(x + 2, y + 1) | bit(x + 3, y));
        }
    }
    for m in &expected {
        assert!(masks.contains(m), "missing mask {m:#x}");
    }
    let mut sorted = masks.clone();
    sorted.sort();
    sorted.dedup();
    assert_eq!(sorted.len(), 69);
}

#[test]
fn getp_reads_row_major_from_top() {
    let b = Bitboard::new().do_move(Move::new(0, 0));
    assert_eq!(b.data, 1);
    // bottom-left cell is row-major index 35 (row 5 from the top, column 0)
    assert!(b.getp(35));
    assert!(!b.getp(0));
    let t = Bitboard::new().do_move(Move::new(6, 5));
    // top-right cell is row-major index 6
    assert!(t.getp(6));
    assert!(!t.getp(41));
}

#[test]
fn do_symmetry_reverses_columns() {
    let b = Bitboard::new().do_move(Move::new(0, 0));
    let m = b.do_symmetry();
    assert_eq!(m.data, bit(6, 0));
    assert_eq!(m.do_symmetry().data, b.data);
    let c = Bitboard::new().do_move(Move::new(2, 4));
    assert_eq!(c.do_symmetry().data, bit(4, 4));
}

#[test]
fn empty_board_legal_moves_center_out() {
    let moves = empty_board().legal_moves();
    let xs: Vec<u8> = moves.iter().map(|m| m.x).collect();
    assert_eq!(xs, vec![3, 2, 4, 1, 5, 0, 6]);
    assert!(moves.iter().all(|m| m.y == 0));
}

#[test]
fn column_tracks_height_and_fills_up() {
    let mut b = empty_board();
    for expected_row in 0..6u8 {
        let mv = b.column(2).expect("column open");
        assert_eq!(mv, Move::new(2, expected_row));
        b = b.do_move(mv);
    }
    assert!(b.column(2).is_none());
    assert!(b.column(7).is_none());
    assert!(b.column(200).is_none());
    assert_eq!(b.column(0), Some(Move::new(0, 0)));
}

#[test]
fn do_move_alternates_turn_and_grows_column() {
    let b0 = empty_board();
    let b1 = b0.do_move(Move::new(3, 0));
    assert!(!b1.red_to_play);
    assert_eq!(b1.red.data, bit(3, 0));
    assert_eq!(b1.yellow.data, 0);
    let b2 = b1.do_move(Move::new(3, 1));
    assert!(b2.red_to_play);
    assert_eq!(b2.yellow.data, bit(3, 1));
    // the column grew by exactly one each time
    assert_eq!(b2.column(3), Some(Move::new(3, 2)));
    // other columns are untouched
    for x in [0u8, 1, 2, 4, 5, 6] {
        assert_eq!(b2.column(x), Some(Move::new(x, 0)));
    }
}

#[test]
fn win_detects_vertical() {
    // red stacks column 0; yellow answers in distinct columns
    let mut b = empty_board();
    for (rx, yx) in [(0u8, 1u8), (0, 2), (0, 4)] {
        b = b.do_move(b.column(rx).unwrap());
        b = b.do_move(b.column(yx).unwrap());
    }
    assert!(matches!(b.win(), Win::Ongoing));
    b = b.do_move(b.column(0).unwrap());
    assert!(matches!(b.win(), Win::Red));
    assert!(has_window(b.red.data));
    assert!(!has_window(b.yellow.data));
}

#[test]
fn win_detects_horizontal_for_yellow() {
    // red wastes moves in column 6; yellow builds row 0 across columns 0..4
    let mut b = empty_board();
    for yx in 0..3u8 {
        b = b.do_move(b.column(6).unwrap());
        b = b.do_move(b.column(yx).unwrap());
    }
    b = b.do_move(b.column(5).unwrap());
    assert!(matches!(b.win(), Win::Ongoing));
    b = b.do_move(b.column(3).unwrap());
    assert!(matches!(b.win(), Win::Yellow));
}

#[test]
fn win_detects_diagonals() {
    // build a rising red diagonal directly
    let red = bit(0, 0) | bit(1, 1) | bit(2, 2) | bit(3, 3);
    let yellow = bit(1, 0) | bit(2, 0) | bit(2, 1) | bit(3, 0) | bit(3, 1) | bit(3, 2);
    let b = Board {
        red: Bitboard { data: red },
        yellow: Bitboard { data: yellow },
        red_to_play: false,
    };
    assert!(matches!(b.win(), Win::Red));
    // and a falling yellow diagonal
    let y2 = bit(0, 3) | bit(1, 2) | bit(2, 1) | bit(3, 0);
    let r2 = bit(0, 0) | bit(0, 1) | bit(0, 2) | bit(1, 0) | bit(1, 1) | bit(2, 0);
    let b2 = Board {
        red: Bitboard { data: r2 },
        yellow: Bitboard { data: y2 },
        red_to_play: true,
    };
    assert!(matches!(b2.win(), Win::Yellow));
}

#[test]
fn full_board_without_window_is_tie() {
    let mut red = 0u64;
    let mut yellow = 0u64;
    for x in 0..7u8 {
        for y in 0..6u8 {
            if (x + y / 2) % 2 == 0 {
                red |= bit(x, y);
            } else {
                yellow |= bit(x, y);
            }
        }
    }
    let b = Board {
        red: Bitboard { data: red },
        yellow: Bitboard { data: yellow },
        red_to_play: true,
    };
    assert!(b.is_tie());
    assert!(matches!(b.win(), Win::Tie));
    assert!(b.legal_moves().is_empty());
}

#[test]
fn win_takes_precedence_over_tie() {
    // a full grid where red owns all of column 0
    let mut red = bit(0, 0) | bit(0, 1) | bit(0, 2) | bit(0, 3) | bit(0, 4) | bit(0, 5);
    let mut yellow = 0u64;
    for x in 1..7u8 {
        for y in 0..6u8 {
            if (x + y / 2) % 2 == 0 {
                red |= bit(x, y);
            } else {
                yellow |= bit(x, y);
            }
        }
    }
    let b = Board {
        red: Bitboard { data: red },
        yellow: Bitboard { data: yellow },
        red_to_play: true,
    };
    assert!(b.is_tie());
    assert!(matches!(b.win(), Win::Red));
}

#[test]
fn canonicalize_is_idempotent_and_mirror_invariant() {
    // an asymmetric position
    let mut b = empty_board();
    for mv in [(0u8, 0u8), (1, 0), (0, 1), (2, 0), (3, 0)] {
        b = b.do_move(Move::new(mv.0, mv.1));
    }
    let c = b.canonicalize();
    assert_eq!(c.canonicalize(), c);
    let mirrored = Board {
        red: b.red.do_symmetry(),
        yellow: b.yellow.do_symmetry(),
        red_to_play: b.red_to_play,
    };
    assert_eq!(mirrored.canonicalize(), c);
    // the canonical form is one of the two
    assert!(c == b || c == mirrored);
}

#[test]
fn mirrored_board_reports_same_outcome() {
    let mut b = empty_board();
    for (rx, yx) in [(0u8, 1u8), (0, 2), (0, 4)] {
        b = b.do_move(b.column(rx).unwrap());
        b = b.do_move(b.column(yx).unwrap());
    }
    b = b.do_move(b.column(0).unwrap());
    let mirrored = Board {
        red: b.red.do_symmetry(),
        yellow: b.yellow.do_symmetry(),
        red_to_play: b.red_to_play,
    };
    assert!(matches!(b.win(), Win::Red));
    assert!(matches!(mirrored.win(), Win::Red));
    // and an ongoing position stays ongoing
    let open = empty_board().do_move(Move::new(2, 0));
    let open_mirrored = Board {
        red: open.red.do_symmetry(),
        yellow: open.yellow.do_symmetry(),
        red_to_play: open.red_to_play,
    };
    assert!(matches!(open.win(), Win::Ongoing));
    assert!(matches!(open_mirrored.win(), Win::Ongoing));
}

#[test]
fn flipped_keeps_cells_and_inverts_turn() {
    let b = empty_board().do_move(Move::new(3, 0));
    let f = b.flipped();
    assert_eq!(f.red, b.red);
    assert_eq!(f.yellow, b.yellow);
    assert_eq!(f.red_to_play, !b.red_to_play);
}

#[test]
fn render_shows_discs() {
    let b = empty_board().do_move(Move::new(0, 0));
    let s = b.render();
    assert!(s.contains('\u{25cf}'));
    assert!(s.contains('\u{25cb}'));
    assert_eq!(s.matches('\u{25cf}').count(), 1);
    assert_eq!(s.matches('\u{25cb}').count(), 41);
}
