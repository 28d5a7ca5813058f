use vstd::prelude::*;
use vstd::string::StringExecFns;

use crate::bitboard::{
    Bitboard, Move, FULL_GRID, cell_bit, covers, diag_down_mask, diag_up_mask, generate_win_masks,
    horiz_mask, is_stack, is_win_mask, lane, lemma_win_masks_complete, lemma_win_masks_sound,
    mirror64, occ, stack_height, vert_mask, win_masks_seq, wins,
};

verus! {

/// A full position: one bit board per player plus the turn flag.
/// Boards are immutable values; applying a move builds a new board.
#[derive(Debug, Copy, Clone, PartialEq, Eq, Hash, Structural)]
pub struct Board {
    pub red: Bitboard,
    pub yellow: Bitboard,
    pub red_to_play: bool,
}

/// The outcome reported for a position.
#[derive(Debug, Copy, Clone, PartialEq, Eq, Structural)]
pub enum Win {
    Ongoing,
    Red,
    Yellow,
    Tie,
}

impl Board {
    /// All occupied cells, both players together.
    pub open spec fn combined(self) -> u64 {
        self.red.data | self.yellow.data
    }

    /// The representation invariant: the two players share no cell, the
    /// padding byte is clear, and every column is a stack filled from the
    /// bottom. Every board reachable from the empty board by legal moves
    /// satisfies this.
    pub open spec fn valid(self) -> bool {
        &&& self.red.data & self.yellow.data == 0
        &&& self.combined() >> 56 == 0
        &&& forall|x: u64| x < 7 ==> is_stack(#[trigger] lane(self.combined(), x))
    }

    /// The number of stones stacked in column `x`.
    pub open spec fn height(self, x: u64) -> u64
        recommends
            self.valid(),
            x < 7,
    {
        stack_height(lane(self.combined(), x))
    }

    /// Whether all 42 cells are occupied.
    pub open spec fn full(self) -> bool {
        self.combined() == FULL_GRID
    }

    /// Whether `mv` may be played on this board: its column has room and
    /// its row is that column's current height.
    pub open spec fn legal_spec(self, mv: Move) -> bool
        recommends
            self.valid(),
    {
        mv.x < 7 && mv.y < 6 && mv.y == self.height(mv.x as u64)
    }

    /// Whether the game is over: somebody completed a window, or the grid
    /// is full.
    pub open spec fn terminal(self) -> bool {
        wins(self.red.data) || wins(self.yellow.data) || self.full()
    }

    /// Reports the position's outcome. A player who completed a window wins
    /// (red is checked first); with no completed window, a full grid is a
    /// tie. The win check takes precedence over the tie check, so a winning
    /// 42nd stone wins.
    pub fn win(&self) -> (r: Win)
        ensures
            r == Win::Red <==> wins(self.red.data),
            r == Win::Yellow <==> (!wins(self.red.data) && wins(self.yellow.data)),
            r == Win::Tie <==> (!wins(self.red.data) && !wins(self.yellow.data) && self.full()),
            r == Win::Ongoing <==> !self.terminal(),
    {
        if has_window(self.red.data) {
            return Win::Red;
        }
        if has_window(self.yellow.data) {
            return Win::Yellow;
        }
        if (self.red.data | self.yellow.data) == FULL_GRID {
            return Win::Tie;
        }
        Win::Ongoing
    }

    /// A printable picture of the grid, top row first, using ANSI colors:
    /// filled discs for stones, hollow circles for empty cells.
    pub fn render(&self) -> (s: String)
    {
        let mut s = String::new();
        let mut i: u8 = 0;
        while i < 42
            decreases 42 - i,
        {
            if i % 7 == 0 {
                s.append("\n");
            }
            let r = self.red.getp(i);
            let y = self.yellow.getp(i);
            if r && y {
                s.append("E");
            } else if r {
                s.append(" \x1b[31m\u{25cf} ");
            } else if y {
                s.append(" \x1b[33m\u{25cf} ");
            } else {
                s.append(" \x1b[0m\u{25cb} ");
            }
            i = i + 1;
        }
        s.append("\x1b[0m");
        s
    }

    /// Whether the grid is full, regardless of any completed window.
    pub fn is_tie(&self) -> (r: bool)
        ensures
            r == self.full(),
    {
        (self.red.data | self.yellow.data) == FULL_GRID
    }
}

impl Board {
    /// The total number of stones on the board.
    pub open spec fn stones(self) -> int
        recommends
            self.valid(),
    {
        self.height(0) + self.height(1) + self.height(2) + self.height(3) + self.height(4)
            + self.height(5) + self.height(6)
    }

    /// The board after `mv` is played by the player to move: one new bit in
    /// that player's word, and the turn passes.
    pub open spec fn do_move_spec(self, mv: Move) -> Board {
        if self.red_to_play {
            Board {
                red: Bitboard { data: self.red.data | cell_bit(mv.x as u64, mv.y as u64) },
                yellow: self.yellow,
                red_to_play: false,
            }
        } else {
            Board {
                red: self.red,
                yellow: Bitboard { data: self.yellow.data | cell_bit(mv.x as u64, mv.y as u64) },
                red_to_play: true,
            }
        }
    }

    /// The same position with the turn flag inverted. Not a position that
    /// play can reach; it lets a strategy evaluate the board from the other
    /// player's seat.
    pub fn flipped(&self) -> (b: Board)
        ensures
            b.red == self.red,
            b.yellow == self.yellow,
            b.red_to_play == !self.red_to_play,
            b.valid() == self.valid(),
            b.combined() == self.combined(),
    {
        Board { red: self.red, yellow: self.yellow, red_to_play: !self.red_to_play }
    }

    /// The playable move in column `x`, if any: its row is the column's
    /// height, computed by adding one to the merged lane byte and counting
    /// trailing zero bits.
    pub fn column(&self, x: u8) -> (r: Option<Move>)
        requires
            self.valid(),
        ensures
            r is Some <==> (x < 7 && self.height(x as u64) < 6),
            r matches Some(mv) ==> mv.x == x && mv.y == self.height(x as u64) && self.legal_spec(
                mv,
            ),
    {
        if x > 6 {
            return None;
        }
        let combined: u64 = self.red.data | self.yellow.data;
        let ghost xu = x as u64;
        proof {
            lemma_lane_fits(combined, xu);
        }
        let l: u8 = ((combined >> (8 * x as u64)) & 0xff) as u8;
        proof {
            assert(l == lane(combined, xu));
        }
        let b: u8 = l + 1;
        let y: u8 = b.trailing_zeros() as u8;
        proof {
            vstd::std_specs::bits::axiom_u8_trailing_zeros(b);
            let t = vstd::std_specs::bits::u8_trailing_zeros(b);
            assert(b != 0);
            assert(t < 8);
            lemma_stack_succ_bit(l, b, t as u8);
            assert(y == stack_height(lane(combined, xu)));
        }
        if y < 6 {
            Some(Move::new(x, y))
        } else {
            None
        }
    }

    /// All playable moves, visited in the fixed center-out column order
    /// 3, 2, 4, 1, 5, 0, 6 (an ordering heuristic for the search; callers
    /// must not assume left-to-right order).
    #[verifier::rlimit(100)]
    #[verifier::spinoff_prover]
    pub fn legal_moves(&self) -> (r: Vec<Move>)
        requires
            self.valid(),
        ensures
            r@ == self.legal_moves_spec(),
            forall|i: int| 0 <= i < r@.len() ==> self.legal_spec(#[trigger] r@[i]),
            forall|mv: Move| self.legal_spec(mv) ==> r@.contains(mv),
            !self.full() ==> r@.len() > 0,
    {
        let mut r: Vec<Move> = Vec::new();
        if let Some(mv) = self.column(3) {
            r.push(mv);
        }
        proof {
            assert(r@ =~= self.col_move_spec(3));
        }
        if let Some(mv) = self.column(2) {
            r.push(mv);
        }
        proof {
            assert(r@ =~= self.col_move_spec(3) + self.col_move_spec(2));
        }
        if let Some(mv) = self.column(4) {
            r.push(mv);
        }
        proof {
            assert(r@ =~= self.col_move_spec(3) + self.col_move_spec(2) + self.col_move_spec(4));
        }
        if let Some(mv) = self.column(1) {
            r.push(mv);
        }
        proof {
            assert(r@ =~= self.col_move_spec(3) + self.col_move_spec(2) + self.col_move_spec(4)
                + self.col_move_spec(1));
        }
        if let Some(mv) = self.column(5) {
            r.push(mv);
        }
        proof {
            assert(r@ =~= self.col_move_spec(3) + self.col_move_spec(2) + self.col_move_spec(4)
                + self.col_move_spec(1) + self.col_move_spec(5));
        }
        if let Some(mv) = self.column(0) {
            r.push(mv);
        }
        proof {
            assert(r@ =~= self.col_move_spec(3) + self.col_move_spec(2) + self.col_move_spec(4)
                + self.col_move_spec(1) + self.col_move_spec(5) + self.col_move_spec(0));
        }
        if let Some(mv) = self.column(6) {
            r.push(mv);
        }
        proof {
            assert(r@ =~= self.legal_moves_spec());
            self.lemma_legal_moves_props();
        }
        r
    }

    /// The move list contains exactly the playable moves, and is nonempty
    /// whenever the grid has room.
    pub proof fn lemma_legal_moves_props(self)
        requires
            self.valid(),
        ensures
            forall|i: int|
                0 <= i < self.legal_moves_spec().len() ==> self.legal_spec(
                    #[trigger] self.legal_moves_spec()[i],
                ),
            forall|mv: Move| self.legal_spec(mv) ==> self.legal_moves_spec().contains(mv),
            !self.full() ==> self.legal_moves_spec().len() > 0,
    {
        assert forall|i: int| 0 <= i < self.legal_moves_spec().len() implies self.legal_spec(
            #[trigger] self.legal_moves_spec()[i],
        ) by {
            self.lemma_legal_moves_sound(i);
        }
        assert forall|mv: Move| self.legal_spec(mv) implies self.legal_moves_spec().contains(
            mv,
        ) by {
            self.lemma_legal_moves_complete(mv);
        }
        if !self.full() {
            lemma_full_lanes(self.combined());
            let x = choose|x: u64| x < 7 && lane(self.combined(), x) != 63;
            let mv = Move { x: x as u8, y: self.height(x) as u8 };
            assert(self.legal_spec(mv));
            self.lemma_legal_moves_complete(mv);
        }
    }

    /// Every entry of the move list is playable.
    proof fn lemma_legal_moves_sound(self, i: int)
        requires
            self.valid(),
            0 <= i < self.legal_moves_spec().len(),
        ensures
            self.legal_spec(self.legal_moves_spec()[i]),
    {
        let s3 = self.col_move_spec(3);
        let s2 = s3 + self.col_move_spec(2);
        let s4 = s2 + self.col_move_spec(4);
        let s1 = s4 + self.col_move_spec(1);
        let s5 = s1 + self.col_move_spec(5);
        let s0 = s5 + self.col_move_spec(0);
        let s6 = s0 + self.col_move_spec(6);
        assert(self.legal_moves_spec() == s6);
        // the case split resolves which block of the concatenation holds
        // entry i; each block is a one-column move list
        if i < s3.len() {
        } else if i < s2.len() {
        } else if i < s4.len() {
        } else if i < s1.len() {
        } else if i < s5.len() {
        } else if i < s0.len() {
        } else {
        }
    }

    /// One playable move for column `x` (as a sequence of zero or one).
    pub open spec fn col_move_spec(self, x: u64) -> Seq<Move>
        recommends
            self.valid(),
            x < 7,
    {
        if self.height(x) < 6 {
            seq![Move { x: x as u8, y: self.height(x) as u8 }]
        } else {
            Seq::empty()
        }
    }

    /// The playable moves, one per open column, in center-out order.
    pub open spec fn legal_moves_spec(self) -> Seq<Move>
        recommends
            self.valid(),
    {
        self.col_move_spec(3) + self.col_move_spec(2) + self.col_move_spec(4) + self.col_move_spec(
            1,
        ) + self.col_move_spec(5) + self.col_move_spec(0) + self.col_move_spec(6)
    }

    /// Every playable move occurs in the move list.
    proof fn lemma_legal_moves_complete(self, mv: Move)
        requires
            self.valid(),
            self.legal_spec(mv),
        ensures
            self.legal_moves_spec().contains(mv),
    {
        let s = self.legal_moves_spec();
        let x = mv.x as u64;
        assert(mv == (Move { x: mv.x, y: self.height(x) as u8 }));
        if mv.x == 3 {
            assert(s[0] == mv);
        } else if mv.x == 2 {
            assert(s[self.col_move_spec(3).len() as int] == mv);
        } else if mv.x == 4 {
            assert(s[(self.col_move_spec(3) + self.col_move_spec(2)).len() as int] == mv);
        } else if mv.x == 1 {
            assert(s[(self.col_move_spec(3) + self.col_move_spec(2) + self.col_move_spec(
                4,
            )).len() as int] == mv);
        } else if mv.x == 5 {
            assert(s[(self.col_move_spec(3) + self.col_move_spec(2) + self.col_move_spec(4)
                + self.col_move_spec(1)).len() as int] == mv);
        } else if mv.x == 0 {
            assert(s[(self.col_move_spec(3) + self.col_move_spec(2) + self.col_move_spec(4)
                + self.col_move_spec(1) + self.col_move_spec(5)).len() as int] == mv);
        } else {
            assert(s[(self.col_move_spec(3) + self.col_move_spec(2) + self.col_move_spec(4)
                + self.col_move_spec(1) + self.col_move_spec(5) + self.col_move_spec(
                0,
            )).len() as int] == mv);
        }
    }

    /// Applies `mv` for the player to move and passes the turn. Callers must
    /// only pass moves obtained from `legal_moves` or `column`; the contract
    /// enforces this.
    pub fn do_move(&self, mv: Move) -> (b: Board)
        requires
            self.valid(),
            self.legal_spec(mv),
        ensures
            b == self.do_move_spec(mv),
            b.valid(),
            b.red_to_play == !self.red_to_play,
            b.combined() == self.combined() | cell_bit(mv.x as u64, mv.y as u64),
            b.height(mv.x as u64) == self.height(mv.x as u64) + 1,
            forall|x: u64| x < 7 && x != mv.x as u64 ==> b.height(x) == self.height(x),
            b.stones() == self.stones() + 1,
    {
        let ghost x = mv.x as u64;
        let ghost y = mv.y as u64;
        let ghost comb = self.combined();
        let ghost cb = cell_bit(x, y);
        proof {
            lemma_occ_lane(comb, x, y);
            lemma_stack_occ(lane(comb, x), y);
            assert(!occ(comb, x, y));
            lemma_or_and(self.red.data, self.yellow.data, cb);
            assert(!occ(self.red.data, x, y) && !occ(self.yellow.data, x, y));
        }
        let b = if self.red_to_play {
            Board { red: self.red.do_move(mv), yellow: self.yellow, red_to_play: false }
        } else {
            Board { red: self.red, yellow: self.yellow.do_move(mv), red_to_play: true }
        };
        proof {
            assert(b == self.do_move_spec(mv));
            self.lemma_do_move_props(mv);
        }
        b
    }
}

// ---------------------------------------------------------------------------
// Bit-level facts, proved once with the bit-vector solver and reused by the
// functions above.
// ---------------------------------------------------------------------------

/// `&` distributes over `|`, and a union is cell-free iff both parts are.
proof fn lemma_or_and(a: u64, b: u64, c: u64)
    by (bit_vector)
    ensures
        (a | b) & c == (a & c) | (b & c),
        ((a | b) & c == 0) <==> (a & c == 0 && b & c == 0),
{
}

/// Reassociating a freshly set bit over the other player's word.
proof fn lemma_or_rearrange(a: u64, b: u64, c: u64)
    by (bit_vector)
    ensures
        (a | c) | b == (a | b) | c,
{
}

proof fn lemma_or_assoc(a: u64, b: u64, c: u64)
    by (bit_vector)
    ensures
        a | (b | c) == (a | b) | c,
{
}

proof fn lemma_and_comm(a: u64, b: u64)
    by (bit_vector)
    ensures
        a & b == b & a,
{
}

/// A lane is an 8-bit value.
proof fn lemma_lane_fits(b: u64, x: u64)
    by (bit_vector)
    requires
        x < 7,
    ensures
        lane(b, x) < 256,
{
}

/// A cell bit is visible in its own lane and nowhere else, and never in the
/// padding byte.
proof fn lemma_lane_update(a: u64, x: u64, y: u64, x2: u64)
    by (bit_vector)
    requires
        x < 7,
        y < 6,
        x2 < 7,
    ensures
        lane(a | cell_bit(x, y), x) == lane(a, x) | (1u64 << y),
        x2 != x ==> lane(a | cell_bit(x, y), x2) == lane(a, x2),
        (a | cell_bit(x, y)) >> 56 == a >> 56,
{
}

/// Setting the bit just above a stack grows the stack by one.
proof fn lemma_stack_grow(l: u64, y: u64)
    by (bit_vector)
    requires
        is_stack(l),
        y == stack_height(l),
        y < 6,
    ensures
        is_stack(l | (1u64 << y)),
        stack_height(l | (1u64 << y)) == y + 1,
{
}

/// A cell is occupied iff its bit is set in its lane.
proof fn lemma_occ_lane(b: u64, x: u64, y: u64)
    by (bit_vector)
    requires
        x < 7,
        y < 6,
    ensures
        occ(b, x, y) <==> (lane(b, x) >> y) & 1 == 1,
{
}

/// In a stacked lane, exactly the rows below the height are occupied.
proof fn lemma_stack_occ(l: u64, y: u64)
    by (bit_vector)
    requires
        is_stack(l),
        y < 6,
    ensures
        ((l >> y) & 1 == 1) <==> y < stack_height(l),
{
}

/// The grid is full exactly when every lane is a full stack.
proof fn lemma_full_lanes(b: u64)
    by (bit_vector)
    requires
        b >> 56 == 0,
    ensures
        (b == FULL_GRID) <==> (lane(b, 0) == 63 && lane(b, 1) == 63 && lane(b, 2) == 63 && lane(
            b,
            3,
        ) == 63 && lane(b, 4) == 63 && lane(b, 5) == 63 && lane(b, 6) == 63),
{
}

/// Relates the exec height computation to the stack model: `b` is the lane
/// value plus one, and `t` its count of trailing zero bits.
proof fn lemma_stack_succ_bit(l: u8, b: u8, t: u8)
    by (bit_vector)
    requires
        l == 0 || l == 1 || l == 3 || l == 7 || l == 15 || l == 31 || l == 63,
        b == l + 1,
        t < 8,
        (b >> t) & 1 == 1,
    ensures
        (l == 0 ==> t == 0) && (l == 1 ==> t == 1) && (l == 3 ==> t == 2) && (l == 7 ==> t == 3) && (
        l == 15 ==> t == 4) && (l == 31 ==> t == 5) && (l == 63 ==> t == 6),
{
}

/// A word that completes none of the 69 table entries completes no window
/// at all.
proof fn lemma_uncovered_table_no_win(bits: u64)
    requires
        forall|j: int| 0 <= j < 69 ==> !covers(bits, #[trigger] win_masks_seq()[j]),
    ensures
        !wins(bits),
{
    lemma_win_masks_sound();
    if wins(bits) {
        let m = choose|m: u64| is_win_mask(m) && covers(bits, m);
        lemma_win_masks_complete(m);
        let j = choose|j: int| 0 <= j < win_masks_seq().len() && win_masks_seq()[j] == m;
        assert(!covers(bits, win_masks_seq()[j]));
    }
}

/// Scans the window table for a completed window in `bits`.
pub fn has_window(bits: u64) -> (r: bool)
    ensures
        r == wins(bits),
{
    proof {
        lemma_win_masks_sound();
    }
    let masks = generate_win_masks();
    let mut i: usize = 0;
    while i < 69
        invariant
            i <= 69,
            masks@ == win_masks_seq(),
            forall|j: int| 0 <= j < i ==> !covers(bits, #[trigger] win_masks_seq()[j]),
        decreases 69 - i,
    {
        let mask: u64 = masks[i];
        proof {
            lemma_win_masks_sound();
        }
        if bits & mask == mask {
            assert(wins(bits));
            return true;
        }
        i = i + 1;
    }
    proof {
        lemma_uncovered_table_no_win(bits);
    }
    false
}

impl Board {
    /// The word holding the stones of the player whose turn it is.
    pub open spec fn mover_bits(self) -> u64 {
        if self.red_to_play {
            self.red.data
        } else {
            self.yellow.data
        }
    }

    /// The word holding the stones of the player who just moved.
    pub open spec fn opponent_bits(self) -> u64 {
        if self.red_to_play {
            self.yellow.data
        } else {
            self.red.data
        }
    }

    /// `mv` is playable and immediately completes a window for the player
    /// to move.
    pub open spec fn winning_move(self, mv: Move) -> bool
        recommends
            self.valid(),
    {
        self.legal_spec(mv) && wins(self.mover_bits() | cell_bit(mv.x as u64, mv.y as u64))
    }

    /// `mv` is playable and occupies a cell that would complete a window
    /// for the opponent if left open.
    pub open spec fn blocking_move(self, mv: Move) -> bool
        recommends
            self.valid(),
    {
        self.legal_spec(mv) && wins(self.opponent_bits() | cell_bit(mv.x as u64, mv.y as u64))
    }
}

impl Board {
    /// The horizontally reflected position: both players' words are lane-
    /// reversed; the turn flag is kept.
    pub open spec fn mirror_spec(self) -> Board {
        Board {
            red: Bitboard { data: mirror64(self.red.data) },
            yellow: Bitboard { data: mirror64(self.yellow.data) },
            red_to_play: self.red_to_play,
        }
    }

    /// The two words read as one 128-bit value; the turn flag does not
    /// participate. This fixed total order decides which of a board and its
    /// mirror is the canonical representative.
    pub open spec fn board_key(self) -> int {
        self.red.data + self.yellow.data * 0x10000000000000000
    }

    /// The canonical representative of this board's mirror pair: the mirror
    /// if its key is strictly smaller, otherwise the board itself.
    pub open spec fn canonical_spec(self) -> Board {
        if self.mirror_spec().board_key() < self.board_key() {
            self.mirror_spec()
        } else {
            self
        }
    }

    /// Returns the canonical representative, used to collapse mirror-
    /// symmetric positions into one transposition-cache entry.
    pub fn canonicalize(&self) -> (b: Board)
        ensures
            b == self.canonical_spec(),
    {
        let sred = self.red.do_symmetry();
        let syellow = self.yellow.do_symmetry();
        proof {
            lemma_u128_key(self.red.data, self.yellow.data);
            lemma_u128_key(sred.data, syellow.data);
        }
        let vc: u128 = (self.red.data as u128) + ((self.yellow.data as u128) << 64);
        let vo: u128 = (sred.data as u128) + ((syellow.data as u128) << 64);
        if vo < vc {
            Board { red: sred, yellow: syellow, red_to_play: self.red_to_play }
        } else {
            *self
        }
    }

    /// An all-empty board is valid and holds no stones.
    pub proof fn lemma_empty_valid(self)
        requires
            self.red.data == 0,
            self.yellow.data == 0,
        ensures
            self.valid(),
            self.stones() == 0,
            !self.full(),
    {
        lemma_zero_board();
        assert forall|x: u64| x < 7 implies is_stack(#[trigger] lane(self.combined(), x))
            && stack_height(lane(self.combined(), x)) == 0 by {
            lemma_zero_lane(x);
        }
    }
}

/// High halves of a 128-bit key: shifting a word into the upper half is
/// multiplication by 2^64, and the packed sum fits.
proof fn lemma_u128_key(a: u64, b: u64)
    by (bit_vector)
    ensures
        ((b as u128) << 64) == (b as u128) * 0x10000000000000000,
        ((a as u128) + ((b as u128) << 64)) <= u128::MAX,
{
}

/// Two packed keys agree only when both words agree.
proof fn lemma_key_injective(a1: u64, b1: u64, a2: u64, b2: u64)
    by (nonlinear_arith)
    requires
        a1 + b1 * 0x10000000000000000 == a2 + b2 * 0x10000000000000000,
    ensures
        a1 == a2,
        b1 == b2,
{
}

proof fn lemma_zero_board()
    by (bit_vector)
    ensures
        0u64 | 0u64 == 0u64,
        0u64 & 0u64 == 0u64,
        0u64 >> 56 == 0u64,
        mirror64(0) == 0,
{
}

proof fn lemma_zero_lane(x: u64)
    by (bit_vector)
    requires
        x < 7,
    ensures
        lane(0, x) == 0,
{
}

/// Lane-reversal facts: the reflection keeps no bit in the padding byte,
/// undoes itself, distributes over `&` and `|`, and sends lane `x` to lane
/// `6 - x`.
proof fn lemma_mirror_basic(d: u64)
    by (bit_vector)
    ensures
        mirror64(d) >> 56 == 0,
        d >> 56 == 0 ==> mirror64(mirror64(d)) == d,
{
}

proof fn lemma_mirror_lane(d: u64, x: u64)
    by (bit_vector)
    requires
        x < 7,
    ensures
        lane(mirror64(d), x) == lane(d, (6 - x) as u64),
{
}

proof fn lemma_mirror_and(a: u64, b: u64)
    by (bit_vector)
    ensures
        mirror64(a) & mirror64(b) == mirror64(a & b),
        mirror64(a) | mirror64(b) == mirror64(a | b),
{
}

/// The reflection of each window is again a window, at the reflected spot.
proof fn lemma_mirror_vert(x: u64, y: u64)
    by (bit_vector)
    requires
        x < 7,
        y < 3,
    ensures
        mirror64(vert_mask(x, y)) == vert_mask((6 - x) as u64, y),
{
}

proof fn lemma_mirror_horiz(x: u64, y: u64)
    by (bit_vector)
    requires
        x < 4,
        y < 6,
    ensures
        mirror64(horiz_mask(x, y)) == horiz_mask((3 - x) as u64, y),
{
}

proof fn lemma_mirror_diag_up(x: u64, y: u64)
    by (bit_vector)
    requires
        x < 4,
        y < 3,
    ensures
        mirror64(diag_up_mask(x, y)) == diag_down_mask((3 - x) as u64, y),
{
}

proof fn lemma_mirror_diag_down(x: u64, y: u64)
    by (bit_vector)
    requires
        x < 4,
        y < 3,
    ensures
        mirror64(diag_down_mask(x, y)) == diag_up_mask((3 - x) as u64, y),
{
}

/// The padding byte of a union is clear iff it is clear on both sides.
proof fn lemma_high_byte(a: u64, b: u64)
    by (bit_vector)
    ensures
        ((a | b) >> 56 == 0) <==> (a >> 56 == 0 && b >> 56 == 0),
{
}

proof fn lemma_mirror_full()
    by (bit_vector)
    ensures
        mirror64(FULL_GRID) == FULL_GRID,
{
}

/// A word with a complete window keeps one under reflection.
proof fn lemma_wins_mirror_fwd(bits: u64)
    requires
        wins(bits),
    ensures
        wins(mirror64(bits)),
{
    let m = choose|m: u64| is_win_mask(m) && covers(bits, m);
    lemma_mirror_and(bits, m);
    assert(covers(mirror64(bits), mirror64(m)));
    if exists|x: u64, y: u64| x < 7 && y < 3 && m == vert_mask(x, y) {
        let (x, y) = choose|x: u64, y: u64| x < 7 && y < 3 && m == vert_mask(x, y);
        lemma_mirror_vert(x, y);
        assert(is_win_mask(mirror64(m)));
    } else if exists|x: u64, y: u64| x < 4 && y < 6 && m == horiz_mask(x, y) {
        let (x, y) = choose|x: u64, y: u64| x < 4 && y < 6 && m == horiz_mask(x, y);
        lemma_mirror_horiz(x, y);
        assert(is_win_mask(mirror64(m)));
    } else if exists|x: u64, y: u64| x < 4 && y < 3 && m == diag_up_mask(x, y) {
        let (x, y) = choose|x: u64, y: u64| x < 4 && y < 3 && m == diag_up_mask(x, y);
        lemma_mirror_diag_up(x, y);
        assert(is_win_mask(mirror64(m)));
    } else {
        let (x, y) = choose|x: u64, y: u64| x < 4 && y < 3 && m == diag_down_mask(x, y);
        lemma_mirror_diag_down(x, y);
        assert(is_win_mask(mirror64(m)));
    }
}

/// No window is complete in an empty word: every window has set bits.
pub proof fn lemma_zero_no_window()
    ensures
        !wins(0),
{
    lemma_win_masks_nonzero();
    if wins(0) {
        let m = choose|m: u64| is_win_mask(m) && covers(0, m);
    }
}

proof fn lemma_win_masks_nonzero()
    by (bit_vector)
    ensures
        forall|m: u64| #[trigger] (0u64 & m) == 0,
        forall|x: u64, y: u64| x < 7 && y < 3 ==> #[trigger] vert_mask(x, y) != 0,
        forall|x: u64, y: u64| x < 4 && y < 6 ==> #[trigger] horiz_mask(x, y) != 0,
        forall|x: u64, y: u64| x < 4 && y < 3 ==> #[trigger] diag_up_mask(x, y) != 0,
        forall|x: u64, y: u64| x < 4 && y < 3 ==> #[trigger] diag_down_mask(x, y) != 0,
{
}

/// Reflection never changes whether a word holds a complete window.
pub proof fn lemma_wins_mirror(bits: u64)
    requires
        bits >> 56 == 0,
    ensures
        wins(mirror64(bits)) <==> wins(bits),
{
    if wins(bits) {
        lemma_wins_mirror_fwd(bits);
    }
    if wins(mirror64(bits)) {
        lemma_wins_mirror_fwd(mirror64(bits));
        lemma_mirror_basic(bits);
    }
}

impl Board {
    /// Mirroring preserves validity, reverses the columns, and keeps the
    /// stone count.
    pub proof fn lemma_mirror_valid(self)
        requires
            self.valid(),
        ensures
            self.mirror_spec().valid(),
            self.mirror_spec().combined() == mirror64(self.combined()),
            forall|x: u64|
                x < 7 ==> #[trigger] self.mirror_spec().height(x) == self.height((6 - x) as u64),
            self.mirror_spec().full() == self.full(),
            self.mirror_spec().stones() == self.stones(),
            self.mirror_spec().red_to_play == self.red_to_play,
    {
        let m = self.mirror_spec();
        lemma_mirror_and(self.red.data, self.yellow.data);
        assert(m.combined() == mirror64(self.combined()));
        lemma_zero_board();
        assert(m.red.data & m.yellow.data == mirror64(0));
        lemma_mirror_basic(self.combined());
        assert(m.combined() >> 56 == 0);
        assert forall|x: u64| x < 7 implies is_stack(#[trigger] lane(m.combined(), x))
            && m.height(x) == self.height((6 - x) as u64) by {
            lemma_mirror_lane(self.combined(), x);
        }
        assert(m.full() == self.full()) by {
            lemma_mirror_full();
            lemma_mirror_basic(self.combined());
            if m.combined() == FULL_GRID {
                assert(mirror64(mirror64(self.combined())) == mirror64(FULL_GRID));
            }
        }
    }

    /// Mirroring never changes who is winning: each player's window status
    /// and the tie status carry over to the reflected board.
    pub proof fn lemma_mirror_outcome(self)
        requires
            self.valid(),
        ensures
            wins(self.mirror_spec().red.data) == wins(self.red.data),
            wins(self.mirror_spec().yellow.data) == wins(self.yellow.data),
            self.mirror_spec().full() == self.full(),
            self.mirror_spec().terminal() == self.terminal(),
    {
        self.lemma_mirror_valid();
        lemma_high_byte(self.red.data, self.yellow.data);
        lemma_wins_mirror(self.red.data);
        lemma_wins_mirror(self.yellow.data);
    }

    /// On a valid board neither player's word touches the padding byte.
    pub proof fn lemma_board_high_bytes(self)
        requires
            self.valid(),
        ensures
            self.red.data >> 56 == 0,
            self.yellow.data >> 56 == 0,
    {
        lemma_high_byte(self.red.data, self.yellow.data);
    }

    /// Mirroring twice gives the board back.
    pub proof fn lemma_mirror_involution(self)
        requires
            self.valid(),
        ensures
            self.mirror_spec().mirror_spec() == self,
    {
        lemma_high_byte(self.red.data, self.yellow.data);
        lemma_mirror_basic(self.red.data);
        lemma_mirror_basic(self.yellow.data);
    }

    /// Canonicalizing an already-canonical board returns it unchanged.
    pub proof fn lemma_canonicalize_idempotent(self)
        requires
            self.valid(),
        ensures
            self.canonical_spec().canonical_spec() == self.canonical_spec(),
    {
        let m = self.mirror_spec();
        if m.board_key() < self.board_key() {
            self.lemma_mirror_involution();
        }
    }

    /// A board and its mirror share one canonical representative.
    pub proof fn lemma_canonicalize_mirror(self)
        requires
            self.valid(),
        ensures
            self.mirror_spec().canonical_spec() == self.canonical_spec(),
    {
        let m = self.mirror_spec();
        self.lemma_mirror_involution();
        if m.board_key() == self.board_key() {
            lemma_key_injective(m.red.data, m.yellow.data, self.red.data, self.yellow.data);
            assert(m == self);
        }
    }

    /// The canonical representative is itself a valid board with the same
    /// outcome classification.
    pub proof fn lemma_canonical_valid(self)
        requires
            self.valid(),
        ensures
            self.canonical_spec().valid(),
            self.canonical_spec().red_to_play == self.red_to_play,
            wins(self.canonical_spec().red.data) == wins(self.red.data),
            wins(self.canonical_spec().yellow.data) == wins(self.yellow.data),
            self.canonical_spec().full() == self.full(),
    {
        self.lemma_mirror_valid();
        self.lemma_mirror_outcome();
    }

    /// Every entry of the move list targets a column with room, and playing
    /// it grows exactly that column by one stone.
    pub proof fn lemma_legal_move_grows_column(self, mv: Move)
        requires
            self.valid(),
            self.legal_moves_spec().contains(mv),
        ensures
            self.height(mv.x as u64) < 6,
            self.legal_spec(mv),
            self.do_move_spec(mv).valid(),
            self.do_move_spec(mv).height(mv.x as u64) == self.height(mv.x as u64) + 1,
            forall|x: u64|
                x < 7 && x != mv.x as u64 ==> self.do_move_spec(mv).height(x) == self.height(x),
            self.do_move_spec(mv).stones() == self.stones() + 1,
    {
        self.lemma_legal_moves_props();
        let i = choose|i: int|
            0 <= i < self.legal_moves_spec().len() && self.legal_moves_spec()[i] == mv;
        assert(self.legal_spec(mv));
        self.lemma_do_move_props(mv);
    }

    /// The spec-level effect of a legal move, shared by `do_move` and the
    /// laws about it.
    pub proof fn lemma_do_move_props(self, mv: Move)
        requires
            self.valid(),
            self.legal_spec(mv),
        ensures
            self.do_move_spec(mv).valid(),
            self.do_move_spec(mv).red_to_play == !self.red_to_play,
            self.do_move_spec(mv).combined() == self.combined() | cell_bit(
                mv.x as u64,
                mv.y as u64,
            ),
            self.do_move_spec(mv).height(mv.x as u64) == self.height(mv.x as u64) + 1,
            forall|x: u64|
                x < 7 && x != mv.x as u64 ==> self.do_move_spec(mv).height(x) == self.height(x),
            self.do_move_spec(mv).stones() == self.stones() + 1,
    {
        let x = mv.x as u64;
        let y = mv.y as u64;
        let comb = self.combined();
        let cb = cell_bit(x, y);
        let b = self.do_move_spec(mv);
        lemma_occ_lane(comb, x, y);
        lemma_stack_occ(lane(comb, x), y);
        lemma_or_and(self.red.data, self.yellow.data, cb);
        if self.red_to_play {
            lemma_or_rearrange(self.red.data, self.yellow.data, cb);
            lemma_or_and(self.red.data, cb, self.yellow.data);
            lemma_and_comm(self.yellow.data, cb);
        } else {
            lemma_or_assoc(self.red.data, self.yellow.data, cb);
            lemma_and_comm(self.red.data, self.yellow.data | cb);
            lemma_or_and(self.yellow.data, cb, self.red.data);
            lemma_and_comm(self.red.data, self.yellow.data);
            lemma_and_comm(self.red.data, cb);
        }
        assert(b.combined() == comb | cb);
        assert(b.red.data & b.yellow.data == 0);
        assert forall|x2: u64| x2 < 7 implies is_stack(#[trigger] lane(b.combined(), x2)) && (x2
            != x ==> b.height(x2) == self.height(x2)) && (x2 == x ==> b.height(x2) == self.height(
            x2,
        ) + 1) by {
            lemma_lane_update(comb, x, y, x2);
            if x2 == x {
                lemma_stack_grow(lane(comb, x), y);
            }
        }
        lemma_lane_update(comb, x, y, 0);
        assert(b.combined() >> 56 == 0);
    }

    /// A game can never exceed 42 stones, and a full grid is terminal: so
    /// any run of legal moves reaches a terminal position within 42 moves.
    pub proof fn lemma_bounded_game(self)
        requires
            self.valid(),
        ensures
            0 <= self.stones() <= 42,
            self.stones() == 42 <==> self.full(),
            self.full() ==> self.terminal(),
    {
        lemma_full_lanes(self.combined());
        if self.stones() == 42 {
            assert(lane(self.combined(), 0) == 63 && lane(self.combined(), 1) == 63 && lane(
                self.combined(),
                2,
            ) == 63 && lane(self.combined(), 3) == 63 && lane(self.combined(), 4) == 63 && lane(
                self.combined(),
                5,
            ) == 63 && lane(self.combined(), 6) == 63);
        }
    }
}

} // verus!
