use std::collections::HashMap;

use connect_four::bitboard::{Bitboard, Move};
use connect_four::board::{Board, Win};
use connect_four::strategy::{
    minimax, Above, BaseRandom, Defensive, Evaluator, Greedy, Minimax, Offset, PosEntry, Random,
    Strategy,
};

fn empty_board() -> Board {
    Board { red: Bitboard::new(), yellow: Bitboard::new(), red_to_play: true }
}

fn contains_move(moves: &[Move], mv: Move) -> bool {
    moves.iter().any(|m| *m == mv)
}

/// The board after red stacked three stones in column 0, red to move:
/// red owns (0,0)..(0,2), yellow sits at (1,0), (3,0), (5,0).
fn red_triple_board() -> Board {
    let mut b = empty_board();
    for mv in [(0u8, 0u8), (1, 0), (0, 1), (3, 0), (0, 2), (5, 0)] {
        b = b.do_move(Move::new(mv.0, mv.1));
    }
    b
}

/// An unpruned, uncached reference search, written independently here.
fn plain_minimax(board: Board, depth: u8) -> i16 {
    let greedy = Greedy::new();
    if !matches!(board.win(), Win::Ongoing) || depth == 0 {
        return greedy.eval(board) as i16;
    }
    let values: Vec<i16> =
        board.legal_moves().iter().map(|m| plain_minimax(board.do_move(*m), depth - 1)).collect();
    if board.red_to_play {
        *values.iter().max().unwrap()
    } else {
        *values.iter().min().unwrap()
    }
}

#[test]
fn greedy_scores_empty_board_zero() {
    assert_eq!(Greedy::new().eval(empty_board()), 0);
}

#[test]
fn greedy_scores_single_center_stone() {
    // one red stone at (3,0) sits in 1 vertical, 4 horizontal and 2
    // diagonal windows, each worth one point
    let b = empty_board().do_move(Move::new(3, 0));
    assert_eq!(Greedy::new().eval(b), 7);
}

#[test]
fn greedy_scores_completed_windows_with_win_constants() {
    let mut b = empty_board();
    for (rx, yx) in [(0u8, 1u8), (0, 2), (0, 4)] {
        b = b.do_move(b.column(rx).unwrap());
        b = b.do_move(b.column(yx).unwrap());
    }
    b = b.do_move(b.column(0).unwrap());
    assert_eq!(Greedy::new().eval(b), 10000);
    let flipped = Board { red: b.yellow, yellow: b.red, red_to_play: b.red_to_play };
    assert_eq!(Greedy::new().eval(flipped), -10000);
}

#[test]
fn tactical_override_takes_the_win() {
    // the mover owns rows 0..2 of column 0 and row 3 is playable
    let b = red_triple_board();
    assert!(b.red_to_play);
    let expected = Move::new(0, 3);
    assert_eq!(Offset::new(true).best_move_wb(b, Move::new(5, 0)), expected);
    assert_eq!(Greedy::new().best_move_wb(b, Move::new(5, 0)), expected);
    assert_eq!(Above::new().best_move_wb(b, Move::new(5, 0)), expected);
    assert_eq!(BaseRandom::new().best_move_wb(b, Move::new(5, 0)), expected);
}

#[test]
fn tactical_override_blocks_the_loss() {
    // same threat, but yellow to move: yellow must occupy (0,3)
    let mut b = empty_board();
    for mv in [(0u8, 0u8), (1, 0), (0, 1), (3, 0), (0, 2)] {
        b = b.do_move(Move::new(mv.0, mv.1));
    }
    assert!(!b.red_to_play);
    let expected = Move::new(0, 3);
    assert_eq!(Offset::new(false).best_move_wb(b, Move::new(0, 2)), expected);
    assert_eq!(Greedy::new().best_move_wb(b, Move::new(0, 2)), expected);
}

#[test]
fn random_strategy_skips_the_tactical_override() {
    // Random overrides the safety net: on the threat board it may play
    // anything legal, and it must always answer with a legal move
    let b = red_triple_board();
    let legal = b.legal_moves();
    for _ in 0..50 {
        let mv = Random::new().best_move_wb(b, Move::new(5, 0));
        assert!(contains_move(&legal, mv));
    }
}

#[test]
fn pruned_search_equals_plain_minimax() {
    let greedy = Greedy::new();
    let boards = [
        empty_board(),
        red_triple_board(),
        empty_board().do_move(Move::new(3, 0)).do_move(Move::new(3, 1)),
    ];
    for b in boards {
        for depth in 0..4u8 {
            let mut table: HashMap<u128, PosEntry> = HashMap::new();
            let got = minimax(b, &greedy, &mut table, depth, i16::MIN, i16::MAX);
            assert_eq!(got, plain_minimax(b, depth), "depth {depth}");
        }
    }
}

#[test]
fn cache_reuse_never_changes_the_score() {
    let greedy = Greedy::new();
    let b = red_triple_board();
    let mut warmed: HashMap<u128, PosEntry> = HashMap::new();
    let first = minimax(b, &greedy, &mut warmed, 4, i16::MIN, i16::MAX);
    assert!(!warmed.is_empty());
    // the searched root was written back at its depth with its exact score
    assert!(warmed.values().any(|e| e.depth == 4 && e.value == first));
    // the same search against the warmed cache, and against a fresh one
    let again = minimax(b, &greedy, &mut warmed, 4, i16::MIN, i16::MAX);
    let mut fresh: HashMap<u128, PosEntry> = HashMap::new();
    let cold = minimax(b, &greedy, &mut fresh, 4, i16::MIN, i16::MAX);
    assert_eq!(first, again);
    assert_eq!(first, cold);
    // and deeper positions reached through different windows agree too
    let deeper = empty_board().do_move(Move::new(2, 0));
    let mut t1: HashMap<u128, PosEntry> = HashMap::new();
    let mut t2 = warmed;
    assert_eq!(
        minimax(deeper, &greedy, &mut t1, 3, i16::MIN, i16::MAX),
        minimax(deeper, &greedy, &mut t2, 3, i16::MIN, i16::MAX),
    );
}

#[test]
fn search_strategy_takes_a_forced_win() {
    let b = red_triple_board();
    let m = Minimax::new(Greedy::new(), 2);
    // completing column 0 is the unique best move at any depth
    assert_eq!(m.best_move(b, Move::new(5, 0)), Move::new(0, 3));
    assert_eq!(m.best_move_wb(b, Move::new(5, 0)), Move::new(0, 3));
}

#[test]
fn search_strategy_blocks_a_forced_loss() {
    let mut b = empty_board();
    for mv in [(0u8, 0u8), (1, 0), (0, 1), (3, 0), (0, 2)] {
        b = b.do_move(Move::new(mv.0, mv.1));
    }
    assert!(!b.red_to_play);
    let m = Minimax::new(Greedy::new(), 2);
    assert_eq!(m.best_move(b, Move::new(0, 2)), Move::new(0, 3));
}

#[test]
fn offset_walks_to_the_nearest_open_column() {
    let b = empty_board().do_move(Move::new(3, 0));
    assert_eq!(Offset::new(true).best_move(b, Move::new(3, 0)), Move::new(4, 0));
    assert_eq!(Offset::new(false).best_move(b, Move::new(3, 0)), Move::new(2, 0));
    // the start-of-game sentinel hint falls back to a random legal move
    let legal = b.legal_moves();
    for _ in 0..20 {
        let mv = Offset::new(true).best_move(b, Move::new(254, 254));
        assert!(contains_move(&legal, mv));
    }
}

#[test]
fn above_plays_on_top_of_the_hint() {
    let b = empty_board().do_move(Move::new(3, 0));
    assert_eq!(Above::new().best_move(b, Move::new(3, 0)), Move::new(3, 1));
    // with the cell above unavailable it still answers legally
    let legal = b.legal_moves();
    for _ in 0..20 {
        let mv = Above::new().best_move(b, Move::new(254, 254));
        assert!(contains_move(&legal, mv));
    }
}

#[test]
fn defensive_wrapper_stays_legal() {
    let b = empty_board().do_move(Move::new(3, 0));
    let d = Defensive::new(Greedy::new());
    let legal = b.legal_moves();
    let mv = d.best_move(b, Move::new(3, 0));
    assert!(contains_move(&legal, mv));
}

#[test]
fn strategy_names() {
    assert_eq!(Evaluator::name(&Greedy::new()), "G");
    assert_eq!(Strategy::name(&Greedy::new()), "G");
    assert_eq!(Random::new().name(), "R");
    assert_eq!(BaseRandom::new().name(), "bR");
    assert_eq!(Above::new().name(), "A");
    assert_eq!(Offset::new(true).name(), "hS");
    assert_eq!(Offset::new(false).name(), "vS");
    assert_eq!(Defensive::new(Greedy::new()).name(), "dG");
    assert_eq!(Minimax::new(Greedy::new(), 10).name(), "M10");
    assert_eq!(Minimax::new(Greedy::new(), 0).name(), "M0");
}
