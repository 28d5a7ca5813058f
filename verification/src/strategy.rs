use vstd::prelude::*;

use crate::bitboard::{win_masks_seq, Move};
use crate::board::{Board, Win, has_window};
use std::collections::HashMap;
use rand::seq::IndexedRandom;
use vstd::string::StringExecFns;

verus! {

// ---------------------------------------------------------------------------
// Bit counting.
// ---------------------------------------------------------------------------

/// The number of set bits in `b`.
pub open spec fn ones(b: u64) -> nat
    decreases b,
{
    if b == 0 {
        0
    } else {
        (b % 2 + ones(b / 2)) as nat
    }
}

proof fn lemma_ones_le(b: u64)
    ensures
        ones(b) <= b,
    decreases b,
{
    if b != 0 {
        lemma_ones_le(b / 2);
    }
}

/// Counts set bits by repeated halving.
fn popcount(v: u64) -> (c: u64)
    ensures
        c == ones(v),
{
    proof {
        lemma_ones_le(v);
    }
    let ghost v0 = v;
    let mut v = v;
    let mut c: u64 = 0;
    while v != 0
        invariant
            ones(v0) <= v0,
            c + ones(v) == ones(v0),
        decreases v,
    {
        c = c + v % 2;
        v = v / 2;
    }
    c
}

// ---------------------------------------------------------------------------
// Evaluation.
// ---------------------------------------------------------------------------

/// The contribution of one window: a window shared by both players is dead;
/// a window held by one player alone scores by that player's stone count,
/// positive for red and negative for yellow.
pub open spec fn window_score(red: u64, yellow: u64, m: u64) -> int {
    let r = ones(red & m);
    let y = ones(yellow & m);
    if r > 0 && y > 0 {
        0
    } else if y == 0 {
        if r == 1 {
            1
        } else if r == 2 {
            5
        } else if r == 3 {
            100
        } else {
            0
        }
    } else {
        if y == 1 {
            -1
        } else if y == 2 {
            -5
        } else if y == 3 {
            -100
        } else {
            0
        }
    }
}

/// The summed window contributions from table index `i` on.
pub open spec fn score_sum_from(red: u64, yellow: u64, ms: Seq<u64>, i: int) -> int
    decreases ms.len() - i,
{
    if i < 0 || i >= ms.len() {
        0
    } else {
        window_score(red, yellow, ms[i]) + score_sum_from(red, yellow, ms, i + 1)
    }
}

proof fn lemma_score_sum_bound(red: u64, yellow: u64, ms: Seq<u64>, i: int)
    requires
        0 <= i <= ms.len(),
    ensures
        -100 * (ms.len() - i) <= score_sum_from(red, yellow, ms, i) <= 100 * (ms.len() - i),
        -100 * ms.len() <= score_sum_from(red, yellow, ms, i) <= 100 * ms.len(),
    decreases ms.len() - i,
{
    if 0 <= i < ms.len() {
        lemma_score_sum_bound(red, yellow, ms, i + 1);
    }
}

/// The greedy heuristic score of a position, from red's perspective: a
/// completed window dominates everything (red checked first), a full grid
/// with no window is worth nothing, and otherwise the 69 windows' partial
/// counts are summed.
pub open spec fn greedy_eval_spec(board: Board) -> int {
    if crate::bitboard::wins(board.red.data) {
        10000
    } else if crate::bitboard::wins(board.yellow.data) {
        -10000
    } else if board.full() {
        0
    } else {
        score_sum_from(board.red.data, board.yellow.data, win_masks_seq(), 0)
    }
}

pub proof fn lemma_greedy_eval_bounds(board: Board)
    ensures
        -10000 <= greedy_eval_spec(board) <= 10000,
{
    lemma_score_sum_bound(board.red.data, board.yellow.data, win_masks_seq(), 0);
    crate::bitboard::lemma_win_masks_sound();
}

/// A position scorer, red-positive: large positive means good for red.
/// `eval_spec` is the scorer's mathematical definition; `eval` computes it.
pub trait Evaluator {
    spec fn eval_spec(&self, board: Board) -> int;

    /// Scores stay far inside the window that the search negates and
    /// narrows, so forced wins always dominate heuristics.
    proof fn lemma_eval_bounds(&self, board: Board)
        ensures
            -10000 <= self.eval_spec(board) <= 10000,
    ;

    fn eval(&self, board: Board) -> (r: i32)
        requires
            board.valid(),
        ensures
            r == self.eval_spec(board),
    ;

    /// The scorer's fixed identifier.
    spec fn name_spec(&self) -> Seq<char>;

    fn name(&self) -> (r: String)
        ensures
            r@ == self.name_spec(),
    ;
}

/// The window-counting evaluator.
pub struct Greedy {}

impl Greedy {
    pub fn new() -> (g: Greedy) {
        Greedy {  }
    }
}

impl Evaluator for Greedy {
    open spec fn eval_spec(&self, board: Board) -> int {
        greedy_eval_spec(board)
    }

    proof fn lemma_eval_bounds(&self, board: Board) {
        lemma_greedy_eval_bounds(board);
    }

    fn eval(&self, board: Board) -> (r: i32) {
        if has_window(board.red.data) {
            return 10000;
        }
        if has_window(board.yellow.data) {
            return -10000;
        }
        if board.is_tie() {
            return 0;
        }
        let masks = crate::bitboard::generate_win_masks();
        let red = board.red.data;
        let yellow = board.yellow.data;
        let mut score: i32 = 0;
        let mut i: usize = 0;
        while i < 69
            invariant
                i <= 69,
                masks@ == win_masks_seq(),
                -100 * (i as int) <= score <= 100 * (i as int),
                score + score_sum_from(red, yellow, win_masks_seq(), i as int) == score_sum_from(
                    red,
                    yellow,
                    win_masks_seq(),
                    0,
                ),
            decreases 69 - i,
        {
            let mask: u64 = masks[i];
            let r4: u64 = popcount(red & mask);
            let y4: u64 = popcount(yellow & mask);
            if r4 > 0 && y4 > 0 {
                // dead window
            } else if y4 == 0 {
                if r4 == 1 {
                    score = score + 1;
                } else if r4 == 2 {
                    score = score + 5;
                } else if r4 == 3 {
                    score = score + 100;
                }
            } else {
                if y4 == 1 {
                    score = score - 1;
                } else if y4 == 2 {
                    score = score - 5;
                } else if y4 == 3 {
                    score = score - 100;
                }
            }
            i = i + 1;
        }
        score
    }

    open spec fn name_spec(&self) -> Seq<char> {
        "G"@
    }

    fn name(&self) -> (r: String) {
        "G".to_owned()
    }
}

// ---------------------------------------------------------------------------
// The search value: depth-bounded minimax over the tree of legal moves.
// ---------------------------------------------------------------------------

/// The depth-bounded minimax value of a position: at a terminal position or
/// an exhausted depth budget it is the evaluator's score; otherwise red
/// picks the child with the largest value and yellow the smallest. This is
/// the unpruned, exhaustive search value; the pruned search is proved to
/// compute it.
pub open spec fn mm_value<E: Evaluator>(e: &E, b: Board, depth: int) -> int
    decreases depth, 1int, 0int,
{
    if b.terminal() || depth <= 0 {
        e.eval_spec(b)
    } else {
        mm_children(e, b, b.legal_moves_spec(), depth)
    }
}

/// The best child value over `moves` for the player to move in `b`.
pub open spec fn mm_children<E: Evaluator>(e: &E, b: Board, moves: Seq<Move>, depth: int) -> int
    decreases depth, 0int, moves.len(),
{
    if depth <= 0 || moves.len() == 0 {
        e.eval_spec(b)
    } else {
        let v0 = mm_value(e, b.do_move_spec(moves[0]), depth - 1);
        if moves.len() == 1 {
            v0
        } else {
            let rest = mm_children(e, b, moves.drop_first(), depth);
            if b.red_to_play {
                if v0 >= rest {
                    v0
                } else {
                    rest
                }
            } else {
                if v0 <= rest {
                    v0
                } else {
                    rest
                }
            }
        }
    }
}

/// The best child value bounds every child's value and is attained by one
/// of them.
proof fn lemma_mm_children_bounds<E: Evaluator>(e: &E, b: Board, moves: Seq<Move>, depth: int)
    requires
        moves.len() > 0,
        depth > 0,
    ensures
        b.red_to_play ==> forall|i: int|
            0 <= i < moves.len() ==> mm_children(e, b, moves, depth) >= mm_value(
                e,
                b.do_move_spec(#[trigger] moves[i]),
                depth - 1,
            ),
        !b.red_to_play ==> forall|i: int|
            0 <= i < moves.len() ==> mm_children(e, b, moves, depth) <= mm_value(
                e,
                b.do_move_spec(#[trigger] moves[i]),
                depth - 1,
            ),
        exists|i: int|
            0 <= i < moves.len() && mm_children(e, b, moves, depth) == mm_value(
                e,
                b.do_move_spec(#[trigger] moves[i]),
                depth - 1,
            ),
    decreases moves.len(),
{
    let mc = mm_children(e, b, moves, depth);
    if moves.len() == 1 {
        assert(mc == mm_value(e, b.do_move_spec(moves[0]), depth - 1));
    } else {
        let rest = moves.drop_first();
        lemma_mm_children_bounds(e, b, rest, depth);
        assert(forall|i: int| 0 <= i < rest.len() ==> #[trigger] rest[i] == moves[i + 1]);
        if b.red_to_play {
            assert forall|i: int| 0 <= i < moves.len() implies mc >= mm_value(
                e,
                b.do_move_spec(#[trigger] moves[i]),
                depth - 1,
            ) by {
                if i > 0 {
                    assert(moves[i] == rest[i - 1]);
                    assert(mm_children(e, b, rest, depth) >= mm_value(
                        e,
                        b.do_move_spec(rest[i - 1]),
                        depth - 1,
                    ));
                }
            }
        } else {
            assert forall|i: int| 0 <= i < moves.len() implies mc <= mm_value(
                e,
                b.do_move_spec(#[trigger] moves[i]),
                depth - 1,
            ) by {
                if i > 0 {
                    assert(moves[i] == rest[i - 1]);
                    assert(mm_children(e, b, rest, depth) <= mm_value(
                        e,
                        b.do_move_spec(rest[i - 1]),
                        depth - 1,
                    ));
                }
            }
        }
        let mcr = mm_children(e, b, rest, depth);
        if mc == mm_value(e, b.do_move_spec(moves[0]), depth - 1) {
        } else {
            let j = choose|j: int|
                0 <= j < rest.len() && mcr == mm_value(e, b.do_move_spec(#[trigger] rest[j]), depth - 1);
            assert(moves[j + 1] == rest[j]);
            assert(mc == mm_value(e, b.do_move_spec(moves[j + 1]), depth - 1));
        }
    }
}

/// The search value stays inside the evaluator's score range.
pub proof fn lemma_mm_in_range<E: Evaluator>(e: &E, b: Board, depth: int)
    requires
        b.valid(),
    ensures
        -10000 <= mm_value(e, b, depth) <= 10000,
    decreases depth,
{
    if b.terminal() || depth <= 0 {
        e.lemma_eval_bounds(b);
    } else {
        let moves = b.legal_moves_spec();
        b.lemma_legal_moves_props();
        lemma_mm_children_bounds(e, b, moves, depth);
        let i = choose|i: int|
            0 <= i < moves.len() && mm_children(e, b, moves, depth) == mm_value(
                e,
                b.do_move_spec(#[trigger] moves[i]),
                depth - 1,
            );
        b.lemma_do_move_props(moves[i]);
        lemma_mm_in_range(e, b.do_move_spec(moves[i]), depth - 1);
    }
}

// ---------------------------------------------------------------------------
// The transposition cache and the pruned search.
// ---------------------------------------------------------------------------

broadcast use vstd::std_specs::hash::group_hash_axioms;

/// How a cached score relates to the true search value: an exact value, a
/// lower bound (fail-high cutoff) or an upper bound (fail-low cutoff).
#[derive(Debug, Clone, Copy)]
pub enum Bound {
    Upper,
    Lower,
    Exact,
}

/// One transposition-cache record: the depth it was computed at, the score,
/// and how that score bounds the true value.
#[derive(Debug, Clone, Copy)]
pub struct PosEntry {
    pub depth: u8,
    pub value: i16,
    pub bound: Bound,
}

impl PosEntry {
    pub fn new(depth: u8, value: i16, bound: Bound) -> (e: PosEntry)
        ensures
            e == (PosEntry { depth, value, bound }),
    {
        PosEntry { depth, value, bound }
    }
}

/// The position a cache key denotes: red in the low 64 bits, yellow in the
/// next 56, the turn flag at bit 120.
pub open spec fn decode_key(k: u128) -> Board {
    Board {
        red: crate::bitboard::Bitboard { data: (k & 0xffff_ffff_ffff_ffff) as u64 },
        yellow: crate::bitboard::Bitboard { data: ((k >> 64) & 0xff_ffff_ffff_ffff) as u64 },
        red_to_play: (k >> 120) != 0,
    }
}

/// The cache key of a position. On valid boards this inverts `decode_key`.
pub open spec fn encode_key(b: Board) -> u128 {
    (b.red.data as u128) | ((b.yellow.data as u128) << 64) | (if b.red_to_play {
        0x1000000000000000000000000000000u128
    } else {
        0u128
    })
}

proof fn lemma_key_fields(a: u64, b: u64, c: u128)
    by (bit_vector)
    requires
        b >> 56 == 0,
        c == 0 || c == 0x1000000000000000000000000000000u128,
    ensures
        (((a as u128) | ((b as u128) << 64) | c) & 0xffff_ffff_ffff_ffff) as u64 == a,
        ((((a as u128) | ((b as u128) << 64) | c) >> 64) & 0xff_ffff_ffff_ffff) as u64 == b,
        ((((a as u128) | ((b as u128) << 64) | c) >> 120) != 0) == (c != 0),
{
}

pub proof fn lemma_key_roundtrip(b: Board)
    requires
        b.valid(),
    ensures
        decode_key(encode_key(b)) == b,
{
    b.lemma_board_high_bytes();
    let c: u128 = if b.red_to_play {
        0x1000000000000000000000000000000u128
    } else {
        0u128
    };
    lemma_key_fields(b.red.data, b.yellow.data, c);
}

fn board_code(board: &Board) -> (k: u128)
    ensures
        k == encode_key(*board),
{
    let t: u128 = if board.red_to_play {
        0x1000000000000000000000000000000u128
    } else {
        0u128
    };
    (board.red.data as u128) | ((board.yellow.data as u128) << 64) | t
}

/// A cache record is sound for its key: its score stands in the stated
/// relation to the true search value of the keyed position at the recorded
/// depth, and lies in the evaluator's range.
pub open spec fn entry_ok<E: Evaluator>(e: &E, k: u128, pe: PosEntry) -> bool {
    &&& -10000 <= pe.value <= 10000
    &&& match pe.bound {
        Bound::Exact => pe.value == mm_value(e, decode_key(k), pe.depth as int),
        Bound::Lower => mm_value(e, decode_key(k), pe.depth as int) >= pe.value,
        Bound::Upper => mm_value(e, decode_key(k), pe.depth as int) <= pe.value,
    }
}

/// Every record in the cache is sound. The search requires this of the
/// cache it is given and preserves it, so a cache can be reused across
/// searches of one evaluator.
pub open spec fn table_ok<E: Evaluator>(e: &E, m: Map<u128, PosEntry>) -> bool {
    forall|k: u128| #[trigger] m.contains_key(k) ==> entry_ok(e, k, m[k])
}

pub proof fn lemma_table_ok_empty<E: Evaluator>(e: &E)
    ensures
        table_ok(e, Map::<u128, PosEntry>::empty()),
{
}

/// Whether the cache probe alone resolves a call on `b` at `depth` with
/// the window (`alpha`, `beta`): a record at the same depth that is exact,
/// or whose bound already closes the window.
pub open spec fn probe_resolves(
    m: Map<u128, PosEntry>,
    b: Board,
    depth: u8,
    alpha: i16,
    beta: i16,
) -> bool {
    let k = encode_key(b);
    &&& m.contains_key(k)
    &&& m[k].depth == depth
    &&& match m[k].bound {
        Bound::Exact => true,
        Bound::Lower => m[k].value >= beta,
        Bound::Upper => m[k].value <= alpha,
    }
}

/// The alpha bound after the cache probe tightened it.
pub open spec fn probed_alpha(m: Map<u128, PosEntry>, b: Board, depth: u8, alpha: i16) -> i16 {
    let k = encode_key(b);
    if m.contains_key(k) && m[k].depth == depth && m[k].bound is Lower && m[k].value > alpha {
        m[k].value
    } else {
        alpha
    }
}

/// The beta bound after the cache probe tightened it.
pub open spec fn probed_beta(m: Map<u128, PosEntry>, b: Board, depth: u8, beta: i16) -> i16 {
    let k = encode_key(b);
    if m.contains_key(k) && m[k].depth == depth && m[k].bound is Upper && m[k].value < beta {
        m[k].value
    } else {
        beta
    }
}

/// Depth-bounded minimax with alpha-beta pruning and the transposition
/// cache. The cache policy is fixed here, once for the whole module:
/// entries are keyed by the raw board, and a cached record is used only
/// when its recorded depth equals the requested depth. Keying by the
/// canonical form instead would also catch mirror-image positions, at the
/// price of canonicalizing on every probe; either policy is sound, and the
/// two are never mixed.
///
/// The contract is the pruning-correctness statement: inside an open window
/// the result is exactly the unpruned minimax value `mm_value`; a result at
/// or below alpha is an upper bound on it, and a result at or over beta a
/// lower bound. The cache never changes the result, only the work done.
#[verifier::rlimit(100)]
#[verifier::spinoff_prover]
pub fn minimax<E: Evaluator>(
    board: Board,
    eval: &E,
    pos_table: &mut HashMap<u128, PosEntry>,
    depth: u8,
    alpha: i16,
    beta: i16,
) -> (r: i16)
    requires
        board.valid(),
        table_ok(eval, old(pos_table)@),
        alpha < beta,
    ensures
        table_ok(eval, final(pos_table)@),
        -10000 <= r <= 10000,
        alpha < r < beta ==> r == mm_value(eval, board, depth as int),
        r <= alpha ==> mm_value(eval, board, depth as int) <= r,
        r >= beta ==> mm_value(eval, board, depth as int) >= r,
        // a terminal node or an exhausted depth budget consults the
        // evaluator directly, and, like a resolving probe, leaves the
        // cache untouched
        board.terminal() ==> r == eval.eval_spec(board),
        !board.terminal() && depth == 0 ==> r == eval.eval_spec(board),
        (board.terminal() || depth == 0 || probe_resolves(
            old(pos_table)@,
            board,
            depth,
            alpha,
            beta,
        )) ==> final(pos_table)@ == old(pos_table)@,
        // the cache only grows: the whole call (recursion included) never
        // evicts a record
        forall|k: u128|
            old(pos_table)@.contains_key(k) ==> final(pos_table)@.contains_key(k),
        // after a real expansion the searched node's record is stored at
        // this depth, tagged against the probe-tightened window
        !(board.terminal() || depth == 0 || probe_resolves(
            old(pos_table)@,
            board,
            depth,
            alpha,
            beta,
        )) ==> ({
            let e = final(pos_table)@[encode_key(board)];
            &&& final(pos_table)@.contains_key(encode_key(board))
            &&& e.depth == depth
            &&& e.value == r
            &&& (r >= probed_beta(old(pos_table)@, board, depth, beta) ==> e.bound is Lower)
            &&& (r <= probed_alpha(old(pos_table)@, board, depth, alpha) ==> e.bound is Upper)
            &&& (probed_alpha(old(pos_table)@, board, depth, alpha) < r < probed_beta(
                old(pos_table)@,
                board,
                depth,
                beta,
            ) ==> e.bound is Exact)
        }),
    decreases depth,
{
    let ghost d = depth as int;
    let ghost v = mm_value(eval, board, d);
    let ghost a0 = alpha;
    let ghost b0 = beta;
    proof {
        lemma_mm_in_range(eval, board, d);
    }
    let w = board.win();
    let terminal = match w {
        Win::Ongoing => false,
        _ => true,
    };
    if terminal {
        let s = eval.eval(board);
        proof {
            eval.lemma_eval_bounds(board);
        }
        return s as i16;
    }
    if depth == 0 {
        let s = eval.eval(board);
        proof {
            eval.lemma_eval_bounds(board);
        }
        return s as i16;
    }
    let code = board_code(&board);
    proof {
        lemma_key_roundtrip(board);
    }
    let mut alpha = alpha;
    let mut beta = beta;
    let cached: Option<PosEntry> = match pos_table.get(&code) {
        Some(e) => Some(*e),
        None => None,
    };
    if let Some(entry) = cached {
        if entry.depth == depth {
            proof {
                assert(old(pos_table)@.contains_key(code));
                assert(entry_ok(eval, code, entry));
            }
            match entry.bound {
                Bound::Exact => {
                    return entry.value;
                },
                Bound::Lower => {
                    if entry.value > alpha {
                        alpha = entry.value;
                    }
                },
                Bound::Upper => {
                    if entry.value < beta {
                        beta = entry.value;
                    }
                },
            }
            if alpha >= beta {
                proof {
                    assert(probe_resolves(old(pos_table)@, board, depth, a0, b0));
                }
                return entry.value;
            }
        }
    }
    let ghost at = alpha;
    let ghost bt = beta;
    proof {
        assert(a0 <= at && bt <= b0 && at < bt);
        assert(at > a0 ==> v >= at);
        assert(bt < b0 ==> v <= bt);
        assert(at == probed_alpha(old(pos_table)@, board, depth, a0));
        assert(bt == probed_beta(old(pos_table)@, board, depth, b0));
        assert(!probe_resolves(old(pos_table)@, board, depth, a0, b0));
    }
    let alpha_orig = alpha;
    let beta_orig = beta;
    let legal = board.legal_moves();
    proof {
        assert(v == mm_children(eval, board, legal@, d));
        lemma_mm_children_bounds(eval, board, legal@, d);
    }
    let n = legal.len();
    let mut val: i16;
    if board.red_to_play {
        val = i16::MIN;
        let mut i: usize = 0;
        while i < n
            invariant_except_break
                i <= n,
                n == legal@.len(),
                n > 0,
                board.valid(),
                !board.terminal(),
                depth > 0,
                d == depth as int,
                board.red_to_play,
                legal@ == board.legal_moves_spec(),
                table_ok(eval, pos_table@),
                forall|k: u128|
                    old(pos_table)@.contains_key(k) ==> pos_table@.contains_key(k),
                v == mm_value(eval, board, d),
                v == mm_children(eval, board, legal@, d),
                alpha_orig < beta_orig,
                beta == beta_orig,
                alpha == (if val > alpha_orig {
                    val
                } else {
                    alpha_orig
                }),
                alpha < beta,
                i == 0 ==> val == i16::MIN,
                i > 0 ==> -10000 <= val <= 10000,
                forall|j: int|
                    0 <= j < i ==> mm_value(eval, board.do_move_spec(#[trigger] legal@[j]), d - 1)
                        <= val,
                (val > alpha_orig && i > 0) ==> exists|j: int|
                    0 <= j < i && mm_value(eval, board.do_move_spec(#[trigger] legal@[j]), d - 1)
                        == val,
            ensures
                table_ok(eval, pos_table@),
                forall|k: u128|
                    old(pos_table)@.contains_key(k) ==> pos_table@.contains_key(k),
                -10000 <= val <= 10000,
                val >= beta_orig ==> exists|j: int|
                    0 <= j < n && mm_value(eval, board.do_move_spec(#[trigger] legal@[j]), d - 1)
                        >= val,
                val < beta_orig ==> forall|j: int|
                    0 <= j < n ==> mm_value(eval, board.do_move_spec(#[trigger] legal@[j]), d - 1)
                        <= val,
                (alpha_orig < val < beta_orig) ==> exists|j: int|
                    0 <= j < n && mm_value(eval, board.do_move_spec(#[trigger] legal@[j]), d - 1)
                        == val,
            decreases n - i,
        {
            let mv = legal[i];
            proof {
                board.lemma_legal_moves_props();
                assert(board.legal_spec(legal@[i as int]));
            }
            let child = board.do_move(mv);
            let r = minimax(child, eval, pos_table, depth - 1, alpha, beta);
            let ghost cmi = mm_value(eval, board.do_move_spec(legal@[i as int]), d - 1);
            proof {
                assert(child == board.do_move_spec(legal@[i as int]));
            }
            if r > val {
                val = r;
            }
            if val > alpha {
                alpha = val;
            }
            i = i + 1;
            if alpha >= beta {
                proof {
                    assert(val >= beta_orig);
                    assert(r >= beta);
                    assert(cmi >= r);
                    assert(val == r);
                }
                break ;
            }
            proof {
                assert(val < beta_orig);
                if r <= val && cmi > val {
                    assert(r < beta);
                    assert(cmi <= r);
                }
            }
        }
    } else {
        val = i16::MAX;
        let mut i: usize = 0;
        while i < n
            invariant_except_break
                i <= n,
                n == legal@.len(),
                n > 0,
                board.valid(),
                !board.terminal(),
                depth > 0,
                d == depth as int,
                !board.red_to_play,
                legal@ == board.legal_moves_spec(),
                table_ok(eval, pos_table@),
                forall|k: u128|
                    old(pos_table)@.contains_key(k) ==> pos_table@.contains_key(k),
                v == mm_value(eval, board, d),
                v == mm_children(eval, board, legal@, d),
                alpha_orig < beta_orig,
                alpha == alpha_orig,
                beta == (if val < beta_orig {
                    val
                } else {
                    beta_orig
                }),
                alpha < beta,
                i == 0 ==> val == i16::MAX,
                i > 0 ==> -10000 <= val <= 10000,
                forall|j: int|
                    0 <= j < i ==> mm_value(eval, board.do_move_spec(#[trigger] legal@[j]), d - 1)
                        >= val,
                (val < beta_orig && i > 0) ==> exists|j: int|
                    0 <= j < i && mm_value(eval, board.do_move_spec(#[trigger] legal@[j]), d - 1)
                        == val,
            ensures
                table_ok(eval, pos_table@),
                forall|k: u128|
                    old(pos_table)@.contains_key(k) ==> pos_table@.contains_key(k),
                -10000 <= val <= 10000,
                val <= alpha_orig ==> exists|j: int|
                    0 <= j < n && mm_value(eval, board.do_move_spec(#[trigger] legal@[j]), d - 1)
                        <= val,
                val > alpha_orig ==> forall|j: int|
                    0 <= j < n ==> mm_value(eval, board.do_move_spec(#[trigger] legal@[j]), d - 1)
                        >= val,
                (alpha_orig < val < beta_orig) ==> exists|j: int|
                    0 <= j < n && mm_value(eval, board.do_move_spec(#[trigger] legal@[j]), d - 1)
                        == val,
            decreases n - i,
        {
            let mv = legal[i];
            proof {
                board.lemma_legal_moves_props();
                assert(board.legal_spec(legal@[i as int]));
            }
            let child = board.do_move(mv);
            let r = minimax(child, eval, pos_table, depth - 1, alpha, beta);
            let ghost cmi = mm_value(eval, board.do_move_spec(legal@[i as int]), d - 1);
            proof {
                assert(child == board.do_move_spec(legal@[i as int]));
            }
            if r < val {
                val = r;
            }
            if val < beta {
                beta = val;
            }
            i = i + 1;
            if alpha >= beta {
                proof {
                    assert(val <= alpha_orig);
                    assert(r <= alpha);
                    assert(cmi <= r);
                    assert(val == r);
                }
                break ;
            }
            proof {
                assert(val > alpha_orig);
                if r >= val && cmi < val {
                    assert(r > alpha);
                    assert(cmi >= r);
                }
            }
        }
    }
    proof {
        if val >= beta_orig {
            if board.red_to_play {
                assert(v >= val);
            } else {
                assert(forall|j: int|
                    0 <= j < n ==> mm_value(eval, board.do_move_spec(#[trigger] legal@[j]), d - 1)
                        >= val);
                assert(v >= val);
            }
        }
        if val <= alpha_orig {
            if board.red_to_play {
                assert(v <= val);
            } else {
                assert(v <= val);
            }
        }
        if alpha_orig < val < beta_orig {
            assert(v == val);
        }
        // carry the bracket from the tightened window back to the given one
        if at > a0 && val <= alpha_orig {
            assert(v == val);
        }
        if bt < b0 && val >= beta_orig {
            assert(v == val);
        }
    }
    let bound = if val >= beta_orig {
        Bound::Lower
    } else if val <= alpha_orig {
        Bound::Upper
    } else {
        Bound::Exact
    };
    let entry = PosEntry::new(depth, val, bound);
    let ghost pre = pos_table@;
    proof {
        assert(entry_ok(eval, code, entry));
    }
    pos_table.insert(code, entry);
    proof {
        assert forall|k: u128| #[trigger] pos_table@.contains_key(k) implies entry_ok(
            eval,
            k,
            pos_table@[k],
        ) by {
            if k != code {
                assert(pre.contains_key(k));
                assert(pos_table@[k] == pre[k]);
            }
        }
    }
    val
}

// ---------------------------------------------------------------------------
// Strategies.
// ---------------------------------------------------------------------------

/// Relies on rand's `IndexedRandom::choose`: on a nonempty slice it returns
/// `Some` of a uniformly sampled element of the slice.
#[verifier::external_body]
fn choose_move(moves: &Vec<Move>) -> (r: Move)
    requires
        moves@.len() > 0,
    ensures
        moves@.contains(r),
{
    *moves.choose(&mut rand::rng()).unwrap()
}

/// A move-selection policy. This is the one behavioral contract the
/// simulation driver sees: given a valid, non-terminal board and a hint
/// (the opponent's previous move, or an out-of-range sentinel at the start
/// of a game), a strategy returns a playable move for the player to move
/// and does not mutate the board.
pub trait Strategy {
    fn best_move(&self, board: Board, last_move: Move) -> (mv: Move)
        requires
            board.valid(),
            !board.terminal(),
        ensures
            board.legal_spec(mv),
    ;

    /// The policy's fixed identifier, as the driver reports it.
    spec fn name_spec(&self) -> Seq<char>;

    fn name(&self) -> (r: String)
        ensures
            r@ == self.name_spec(),
    ;

    /// The tactical safety net placed uniformly in front of a policy: if
    /// the player to move can complete a window right now, do so; failing
    /// that, if the opponent could complete one on their next turn, occupy
    /// that cell; otherwise defer to the wrapped policy.
    fn best_move_wb(&self, board: Board, last_move: Move) -> (mv: Move)
        requires
            board.valid(),
            !board.terminal(),
        ensures
            board.legal_spec(mv),
        default_ensures
            (exists|w: Move| board.winning_move(w)) ==> board.winning_move(mv),
            (!(exists|w: Move| board.winning_move(w)) && (exists|w: Move|
                board.blocking_move(w))) ==> board.blocking_move(mv),
    {
        match find_winning_move(&board) {
            Some(win_mv) => {
                return win_mv;
            },
            _ => {},
        }
        match find_blocking_move(&board) {
            Some(block_mv) => {
                return block_mv;
            },
            _ => {},
        }
        self.best_move(board, last_move)
    }
}

/// Scans the playable moves for one that completes a window for the
/// player to move.
#[verifier::rlimit(60)]
#[verifier::spinoff_prover]
fn find_winning_move(board: &Board) -> (r: Option<Move>)
    requires
        board.valid(),
        !board.terminal(),
    ensures
        r matches Some(mv) ==> board.winning_move(mv),
        r is None ==> forall|w: Move| !board.winning_move(w),
{
    let legal = board.legal_moves();
    let mut i: usize = 0;
    while i < legal.len()
        invariant
            i <= legal@.len(),
            board.valid(),
            legal@ == board.legal_moves_spec(),
            forall|j: int| 0 <= j < i ==> !board.winning_move(#[trigger] legal@[j]),
        decreases legal@.len() - i,
    {
        let mv = legal[i];
        proof {
            board.lemma_legal_moves_props();
        }
        let child = board.do_move(mv);
        let mover_after = if board.red_to_play {
            child.red.data
        } else {
            child.yellow.data
        };
        if has_window(mover_after) {
            proof {
                assert(board.winning_move(mv));
            }
            return Some(mv);
        }
        i = i + 1;
    }
    proof {
        board.lemma_legal_moves_props();
        assert forall|w: Move| !board.winning_move(w) by {
            if board.winning_move(w) {
                let j = choose|j: int| 0 <= j < legal@.len() && legal@[j] == w;
            }
        }
    }
    None
}

/// Scans the playable moves for one occupying a cell with which the
/// opponent could complete a window, using the flipped board to try each
/// cell from the opponent's seat.
#[verifier::rlimit(100)]
#[verifier::spinoff_prover]
fn find_blocking_move(board: &Board) -> (r: Option<Move>)
    requires
        board.valid(),
        !board.terminal(),
    ensures
        r matches Some(mv) ==> board.blocking_move(mv),
        r is None ==> forall|w: Move| !board.blocking_move(w),
{
    let legal = board.legal_moves();
    let fb = board.flipped();
    let mut i: usize = 0;
    while i < legal.len()
        invariant
            i <= legal@.len(),
            board.valid(),
            fb.red == board.red,
            fb.yellow == board.yellow,
            fb.red_to_play == !board.red_to_play,
            fb.valid(),
            legal@ == board.legal_moves_spec(),
            forall|j: int| 0 <= j < i ==> !board.blocking_move(#[trigger] legal@[j]),
        decreases legal@.len() - i,
    {
        let mv = legal[i];
        proof {
            board.lemma_legal_moves_props();
            assert(fb.legal_spec(legal@[i as int]) == board.legal_spec(legal@[i as int]));
        }
        let child = fb.do_move(mv);
        let opp_after = if fb.red_to_play {
            child.red.data
        } else {
            child.yellow.data
        };
        if has_window(opp_after) {
            proof {
                assert(board.blocking_move(mv));
            }
            return Some(mv);
        }
        i = i + 1;
    }
    proof {
        board.lemma_legal_moves_props();
        assert forall|w: Move| !board.blocking_move(w) by {
            if board.blocking_move(w) {
                let j = choose|j: int| 0 <= j < legal@.len() && legal@[j] == w;
            }
        }
    }
    None
}

/// Every evaluator is a one-ply strategy: it applies each legal move and
/// keeps the one whose resulting position it scores best for the mover.
impl<E: Evaluator> Strategy for E {
    #[verifier::rlimit(100)]
    #[verifier::spinoff_prover]
    fn best_move(&self, board: Board, _last_move: Move) -> (mv: Move)
        ensures
            board.legal_spec(mv),
            board.red_to_play ==> forall|w: Move|
                board.legal_spec(w) ==> self.eval_spec(board.do_move_spec(w)) <= self.eval_spec(
                    board.do_move_spec(mv),
                ),
            !board.red_to_play ==> forall|w: Move|
                board.legal_spec(w) ==> self.eval_spec(board.do_move_spec(w)) >= self.eval_spec(
                    board.do_move_spec(mv),
                ),
    {
        let legal = board.legal_moves();
        proof {
            board.lemma_legal_moves_props();
        }
        let child0 = board.do_move(legal[0]);
        let mut best_mv = legal[0];
        let mut best = self.eval(child0);
        let mut i: usize = 1;
        while i < legal.len()
            invariant
                1 <= i <= legal@.len(),
                board.valid(),
                legal@ == board.legal_moves_spec(),
                board.legal_spec(best_mv),
                best == self.eval_spec(board.do_move_spec(best_mv)),
                board.red_to_play ==> forall|j: int|
                    0 <= j < i ==> self.eval_spec(board.do_move_spec(#[trigger] legal@[j]))
                        <= best,
                !board.red_to_play ==> forall|j: int|
                    0 <= j < i ==> self.eval_spec(board.do_move_spec(#[trigger] legal@[j]))
                        >= best,
            decreases legal@.len() - i,
        {
            proof {
                board.lemma_legal_moves_props();
            }
            let child = board.do_move(legal[i]);
            let s = self.eval(child);
            if board.red_to_play {
                if s > best {
                    best = s;
                    best_mv = legal[i];
                }
            } else {
                if s < best {
                    best = s;
                    best_mv = legal[i];
                }
            }
            i = i + 1;
        }
        proof {
            board.lemma_legal_moves_props();
        }
        best_mv
    }

    open spec fn name_spec(&self) -> Seq<char> {
        Evaluator::name_spec(self)
    }

    fn name(&self) -> (r: String) {
        Evaluator::name(self)
    }
}

/// Plays the wrapped strategy's answer for the opposite seat, turning an
/// attacking policy into a defensive one.
pub struct Defensive<M: Strategy> {
    mirror: M,
}

impl<M: Strategy> Defensive<M> {
    /// The wrapped strategy.
    pub closed spec fn spec_mirror(self) -> M {
        self.mirror
    }

    pub fn new(mirror: M) -> (d: Defensive<M>)
        ensures
            d.spec_mirror() == mirror,
    {
        Defensive { mirror }
    }
}

impl<M: Strategy> Strategy for Defensive<M> {
    fn best_move(&self, board: Board, last_move: Move) -> (mv: Move) {
        let fb = board.flipped();
        let mv = self.mirror.best_move(fb, last_move);
        proof {
            assert(board.legal_spec(mv) == fb.legal_spec(mv));
        }
        mv
    }

    open spec fn name_spec(&self) -> Seq<char> {
        "d"@ + self.spec_mirror().name_spec()
    }

    fn name(&self) -> (r: String) {
        let inner = self.mirror.name();
        "d".to_owned().concat(inner.as_str())
    }
}

/// Walks sideways from the opponent's last move and plays the first open
/// column in that direction; with none there, plays a random legal move.
pub struct Offset {
    right: bool,
}

impl Offset {
    /// Whether this instance walks right (toward column 6) or left.
    pub closed spec fn spec_right(self) -> bool {
        self.right
    }

    pub fn new(right: bool) -> (o: Offset)
        ensures
            o.spec_right() == right,
    {
        Offset { right }
    }
}

impl Strategy for Offset {
    /// When some column on the chosen side of the hint is open, the
    /// nearest one is played; otherwise the move is random.
    fn best_move(&self, board: Board, last_move: Move) -> (mv: Move)
        ensures
            board.legal_spec(mv),
            (self.spec_right() && exists|c: u64|
                last_move.x < c < 7 && board.height(c) < 6) ==> (last_move.x < mv.x
                && forall|c: u64|
                last_move.x < c < mv.x && c < 7 ==> board.height(c) >= 6),
            (!self.spec_right() && last_move.x < 7 && exists|c: u64|
                c < last_move.x && board.height(c) < 6) ==> (mv.x < last_move.x
                && forall|c: u64|
                mv.x < c < last_move.x && c < 7 ==> board.height(c) >= 6),
    {
        let mut x = last_move.x;
        while x < 7
            invariant
                board.valid(),
                !board.terminal(),
                self.spec_right() ==> last_move.x <= x,
                self.spec_right() ==> forall|c: u64|
                    last_move.x < c <= x && c < 7 ==> board.height(c) >= 6,
                !self.spec_right() ==> x <= last_move.x,
                !self.spec_right() ==> forall|c: u64|
                    x <= c < last_move.x && c < 7 ==> board.height(c) >= 6,
            decreases (if self.right {
                7 - x as int
            } else {
                x as int
            }),
        {
            // walking left from column 0 would wrap below zero
            if !self.right && x == 0 {
                let legal = board.legal_moves();
                return choose_move(&legal);
            }
            if self.right {
                x = x + 1;
            } else {
                x = x - 1;
            }
            match board.column(x) {
                Some(mv) => {
                    return mv;
                },
                _ => {},
            }
        }
        let legal = board.legal_moves();
        choose_move(&legal)
    }

    open spec fn name_spec(&self) -> Seq<char> {
        if self.spec_right() {
            "hS"@
        } else {
            "vS"@
        }
    }

    fn name(&self) -> (r: String) {
        if self.right {
            "hS".to_owned()
        } else {
            "vS".to_owned()
        }
    }
}

/// Plays directly on top of the opponent's last move when that cell is
/// open; otherwise plays a random legal move.
pub struct Above {}

impl Above {
    pub fn new() -> (a: Above) {
        Above {  }
    }
}

impl Strategy for Above {
    /// When the cell directly above the hint is the playable cell of its
    /// column, it is played; otherwise the move is random.
    fn best_move(&self, board: Board, last_move: Move) -> (mv: Move)
        ensures
            board.legal_spec(mv),
            (last_move.x < 7 && last_move.y < 5 && board.height(last_move.x as u64)
                == last_move.y + 1) ==> mv == (Move { x: last_move.x, y: (last_move.y + 1) as u8 }),
    {
        if last_move.x < 7 && last_move.y < 5 {
            match board.column(last_move.x) {
                Some(mv) => {
                    if mv.y == last_move.y + 1 {
                        return mv;
                    }
                },
                _ => {},
            }
        }
        let legal = board.legal_moves();
        choose_move(&legal)
    }

    open spec fn name_spec(&self) -> Seq<char> {
        "A"@
    }

    fn name(&self) -> (r: String) {
        "A".to_owned()
    }
}

/// Always plays the center column while it has room, else the lowest
/// open column; a simple deterministic policy for exercising whole games.
pub struct Center {}

impl Center {
    pub fn new() -> (c: Center) {
        Center {  }
    }
}

impl Strategy for Center {
    fn best_move(&self, board: Board, _last_move: Move) -> (mv: Move)
        ensures
            board.legal_spec(mv),
            board.height(3) < 6 ==> mv.x == 3,
            board.height(3) >= 6 ==> forall|c: u64| c < mv.x ==> board.height(c) >= 6,
    {
        match board.column(3) {
            Some(mv) => {
                return mv;
            },
            _ => {},
        }
        let mut x: u8 = 0;
        while x < 7
            invariant
                x <= 7,
                board.valid(),
                board.height(3) >= 6,
                forall|c: u64| c < x ==> board.height(c) >= 6,
            decreases 7 - x,
        {
            match board.column(x) {
                Some(mv) => {
                    return mv;
                },
                _ => {},
            }
            x = x + 1;
        }
        // with every column full the grid is full, contradicting the
        // non-terminal precondition
        proof {
            board.lemma_bounded_game();
            assert(board.stones() == 42);
        }
        Move::new(0, 0)
    }

    open spec fn name_spec(&self) -> Seq<char> {
        "C"@
    }

    fn name(&self) -> (r: String) {
        "C".to_owned()
    }
}

/// Plays a uniformly random legal move, with the tactical safety net
/// switched off.
pub struct Random {}

impl Random {
    pub fn new() -> (r: Random) {
        Random {  }
    }
}

impl Strategy for Random {
    fn best_move(&self, board: Board, _last_move: Move) -> (mv: Move) {
        let legal = board.legal_moves();
        choose_move(&legal)
    }

    fn best_move_wb(&self, board: Board, last_move: Move) -> (mv: Move) {
        self.best_move(board, last_move)
    }

    open spec fn name_spec(&self) -> Seq<char> {
        "R"@
    }

    fn name(&self) -> (r: String) {
        "R".to_owned()
    }
}

/// Plays a uniformly random legal move, but keeps the tactical safety net.
pub struct BaseRandom {}

impl BaseRandom {
    pub fn new() -> (r: BaseRandom) {
        BaseRandom {  }
    }
}

impl Strategy for BaseRandom {
    fn best_move(&self, board: Board, last_move: Move) -> (mv: Move) {
        Random::new().best_move(board, last_move)
    }

    open spec fn name_spec(&self) -> Seq<char> {
        "bR"@
    }

    fn name(&self) -> (r: String) {
        "bR".to_owned()
    }
}

// ---------------------------------------------------------------------------
// The search-based strategy.
// ---------------------------------------------------------------------------

/// Depth-bounded alpha-beta search as a strategy. Each move request runs
/// with a fresh transposition cache, so an instance carries no mutable
/// state between calls and can be shared freely.
pub struct Minimax<E: Evaluator> {
    eval: E,
    depth: u8,
}

impl<E: Evaluator> Minimax<E> {
    /// The wrapped evaluator.
    pub closed spec fn spec_eval(self) -> E {
        self.eval
    }

    /// The configured search depth.
    pub closed spec fn spec_depth(self) -> u8 {
        self.depth
    }

    pub fn new(eval: E, depth: u8) -> (m: Minimax<E>)
        ensures
            m.spec_eval() == eval,
            m.spec_depth() == depth,
    {
        Minimax { eval, depth }
    }
}

impl<E: Evaluator> Strategy for Minimax<E> {
    /// Scores every legal move with the pruned search at the configured
    /// depth, then picks uniformly at random among the moves tied at the
    /// best score for the mover, so repeated games are not predictable.
    #[verifier::rlimit(100)]
    #[verifier::spinoff_prover]
    fn best_move(&self, board: Board, _last_move: Move) -> (mv: Move)
        ensures
            board.legal_spec(mv),
            board.red_to_play ==> forall|w: Move|
                board.legal_spec(w) ==> mm_value(
                    &self.spec_eval(),
                    board.do_move_spec(w),
                    self.spec_depth() as int,
                ) <= mm_value(&self.spec_eval(), board.do_move_spec(mv), self.spec_depth() as int),
            !board.red_to_play ==> forall|w: Move|
                board.legal_spec(w) ==> mm_value(
                    &self.spec_eval(),
                    board.do_move_spec(w),
                    self.spec_depth() as int,
                ) >= mm_value(&self.spec_eval(), board.do_move_spec(mv), self.spec_depth() as int),
    {
        let ghost d = self.depth as int;
        let legal = board.legal_moves();
        proof {
            board.lemma_legal_moves_props();
        }
        let mut table: HashMap<u128, PosEntry> = HashMap::new();
        let mut scores: Vec<i16> = Vec::new();
        let mut i: usize = 0;
        while i < legal.len()
            invariant
                i <= legal@.len(),
                board.valid(),
                !board.terminal(),
                legal@ == board.legal_moves_spec(),
                d == self.depth as int,
                table_ok(&self.eval, table@),
                scores@.len() == i,
                forall|j: int|
                    0 <= j < i ==> scores@[j] == mm_value(
                        &self.eval,
                        board.do_move_spec(#[trigger] legal@[j]),
                        d,
                    ),
            decreases legal@.len() - i,
        {
            proof {
                board.lemma_legal_moves_props();
            }
            let child = board.do_move(legal[i]);
            let s = minimax(child, &self.eval, &mut table, self.depth, i16::MIN, i16::MAX);
            scores.push(s);
            i = i + 1;
        }
        let n = legal.len();
        let mut best: i16 = scores[0];
        let mut i: usize = 1;
        while i < n
            invariant
                1 <= i <= n,
                n == scores@.len(),
                n == legal@.len(),
                board.red_to_play ==> forall|j: int| 0 <= j < i ==> #[trigger] scores@[j] <= best,
                !board.red_to_play ==> forall|j: int| 0 <= j < i ==> #[trigger] scores@[j] >= best,
                exists|j: int| 0 <= j < i && scores@[j] == best,
            decreases n - i,
        {
            if board.red_to_play {
                if scores[i] > best {
                    best = scores[i];
                }
            } else {
                if scores[i] < best {
                    best = scores[i];
                }
            }
            i = i + 1;
        }
        let mut ties: Vec<Move> = Vec::new();
        let mut i: usize = 0;
        while i < n
            invariant
                i <= n,
                n == scores@.len(),
                n == legal@.len(),
                board.valid(),
                legal@ == board.legal_moves_spec(),
                d == self.depth as int,
                forall|j: int|
                    0 <= j < n ==> scores@[j] == mm_value(
                        &self.eval,
                        board.do_move_spec(#[trigger] legal@[j]),
                        d,
                    ),
                (exists|j: int| 0 <= j < i && scores@[j] == best) ==> ties@.len() > 0,
                forall|k: int|
                    0 <= k < ties@.len() ==> board.legal_spec(#[trigger] ties@[k]) && mm_value(
                        &self.eval,
                        board.do_move_spec(ties@[k]),
                        d,
                    ) == best,
            decreases n - i,
        {
            if scores[i] == best {
                proof {
                    board.lemma_legal_moves_props();
                }
                ties.push(legal[i]);
            }
            i = i + 1;
        }
        let mv = choose_move(&ties);
        proof {
            let k = choose|k: int| 0 <= k < ties@.len() && ties@[k] == mv;
            board.lemma_legal_moves_props();
            if board.red_to_play {
                assert forall|w: Move| board.legal_spec(w) implies mm_value(
                    &self.eval,
                    board.do_move_spec(w),
                    d,
                ) <= mm_value(&self.eval, board.do_move_spec(mv), d) by {
                    let j = choose|j: int| 0 <= j < legal@.len() && legal@[j] == w;
                    assert(scores@[j] <= best);
                }
            } else {
                assert forall|w: Move| board.legal_spec(w) implies mm_value(
                    &self.eval,
                    board.do_move_spec(w),
                    d,
                ) >= mm_value(&self.eval, board.do_move_spec(mv), d) by {
                    let j = choose|j: int| 0 <= j < legal@.len() && legal@[j] == w;
                    assert(scores@[j] >= best);
                }
            }
        }
        mv
    }

    /// The search strategy answers without the tactical safety net: the
    /// search itself already prefers immediate wins and blocks, so the
    /// override keeps the same optimality guarantee as `best_move`.
    fn best_move_wb(&self, board: Board, last_move: Move) -> (mv: Move)
        ensures
            board.legal_spec(mv),
            board.red_to_play ==> forall|w: Move|
                board.legal_spec(w) ==> mm_value(
                    &self.spec_eval(),
                    board.do_move_spec(w),
                    self.spec_depth() as int,
                ) <= mm_value(&self.spec_eval(), board.do_move_spec(mv), self.spec_depth() as int),
            !board.red_to_play ==> forall|w: Move|
                board.legal_spec(w) ==> mm_value(
                    &self.spec_eval(),
                    board.do_move_spec(w),
                    self.spec_depth() as int,
                ) >= mm_value(&self.spec_eval(), board.do_move_spec(mv), self.spec_depth() as int),
    {
        self.best_move(board, last_move)
    }

    open spec fn name_spec(&self) -> Seq<char> {
        "M"@ + crate::simulate::dec_spec(self.spec_depth() as int)
    }

    fn name(&self) -> (r: String) {
        let mut s = "M".to_owned();
        let num = crate::simulate::u8_decimal(self.depth);
        s.append(num.as_str());
        s
    }
}

/// The position cache is a performance device only, never an observable
/// behavior change: a full-window search result is pinned to the unpruned
/// minimax value by the search contract, whatever sound cache the search
/// started from, so two full-window results for one position and depth
/// always agree. The hypotheses are exactly what `minimax` ensures at the
/// window (`i16::MIN`, `i16::MAX`).
pub proof fn lemma_cache_is_invisible<E: Evaluator>(
    e: &E,
    b: Board,
    depth: u8,
    r1: i16,
    r2: i16,
)
    requires
        -10000 <= r1 <= 10000,
        -10000 <= r2 <= 10000,
        i16::MIN < r1 < i16::MAX ==> r1 == mm_value(e, b, depth as int),
        i16::MIN < r2 < i16::MAX ==> r2 == mm_value(e, b, depth as int),
    ensures
        r1 == r2,
{
}

} // verus!
