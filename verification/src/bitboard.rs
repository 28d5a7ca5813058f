use vstd::prelude::*;

verus! {

// ---------------------------------------------------------------------------
// The packed board representation: a 64-bit word holds 7 lanes of 8 bits,
// one lane per column (lanes are bytes 0..=6, byte 7 is unused padding).
// Within a lane, bit y (0..=5) is the cell in row y, counting from the
// bottom; bits 6 and 7 of a lane are never set during play.
// ---------------------------------------------------------------------------

/// All 42 playable cells set: 6 low bits in each of the 7 lanes.
pub const FULL_GRID: u64 = 0x3f3f3f3f3f3f3f;

/// The 8-bit lane of column `x`.
pub open spec fn lane(bits: u64, x: u64) -> u64
    recommends
        x < 7,
{
    (bits >> ((8 * x) as u64)) & 0xff
}

/// The single bit for the cell in column `x`, row `y`.
pub open spec fn cell_bit(x: u64, y: u64) -> u64
    recommends
        x < 7,
        y < 6,
{
    1u64 << ((8 * x + y) as u64)
}

/// Whether the cell in column `x`, row `y` is set in `bits`.
pub open spec fn occ(bits: u64, x: u64, y: u64) -> bool
    recommends
        x < 7,
        y < 6,
{
    bits & cell_bit(x, y) != 0
}

/// A lane value that stones stacked from the bottom can produce:
/// `h` stones fill the low `h` bits.
pub open spec fn is_stack(l: u64) -> bool {
    l == 0 || l == 1 || l == 3 || l == 7 || l == 15 || l == 31 || l == 63
}

/// The number of stones in a stacked lane.
pub open spec fn stack_height(l: u64) -> u64
    recommends
        is_stack(l),
{
    if l == 0 {
        0
    } else if l == 1 {
        1
    } else if l == 3 {
        2
    } else if l == 7 {
        3
    } else if l == 15 {
        4
    } else if l == 31 {
        5
    } else {
        6
    }
}

// ---------------------------------------------------------------------------
// The 69 winning windows of the 7x6 grid.
// ---------------------------------------------------------------------------

/// Vertical window: cells (x, y) .. (x, y+3).
pub open spec fn vert_mask(x: u64, y: u64) -> u64
    recommends
        x < 7,
        y < 3,
{
    0x0fu64 << ((8 * x + y) as u64)
}

/// Horizontal window: cells (x, y) .. (x+3, y).
pub open spec fn horiz_mask(x: u64, y: u64) -> u64
    recommends
        x < 4,
        y < 6,
{
    0x01010101u64 << ((8 * x + y) as u64)
}

/// Rising diagonal window: cells (x, y), (x+1, y+1), (x+2, y+2), (x+3, y+3).
pub open spec fn diag_up_mask(x: u64, y: u64) -> u64
    recommends
        x < 4,
        y < 3,
{
    0x08040201u64 << ((8 * x + y) as u64)
}

/// Falling diagonal window: cells (x, y+3), (x+1, y+2), (x+2, y+1), (x+3, y).
pub open spec fn diag_down_mask(x: u64, y: u64) -> u64
    recommends
        x < 4,
        y < 3,
{
    0x01020408u64 << ((8 * x + y) as u64)
}

/// Whether `m` is one of the 69 four-in-a-row windows.
pub open spec fn is_win_mask(m: u64) -> bool {
    ||| (exists|x: u64, y: u64| x < 7 && y < 3 && m == vert_mask(x, y))
    ||| (exists|x: u64, y: u64| x < 4 && y < 6 && m == horiz_mask(x, y))
    ||| (exists|x: u64, y: u64| x < 4 && y < 3 && m == diag_up_mask(x, y))
    ||| (exists|x: u64, y: u64| x < 4 && y < 3 && m == diag_down_mask(x, y))
}

/// Whether every cell of the window `m` is set in `bits`.
pub open spec fn covers(bits: u64, m: u64) -> bool {
    bits & m == m
}

/// Whether `bits` contains some complete four-in-a-row window.
pub open spec fn wins(bits: u64) -> bool {
    exists|m: u64| is_win_mask(m) && covers(bits, m)
}

/// The fixed table of all 69 windows: 21 vertical, then 24 horizontal,
/// then 12 rising and 12 falling diagonals.
pub open spec fn win_masks_seq() -> Seq<u64> {
    Seq::new(21, |i: int| vert_mask((i / 3) as u64, (i % 3) as u64)) + Seq::new(
        24,
        |i: int| horiz_mask((i / 6) as u64, (i % 6) as u64),
    ) + Seq::new(12, |i: int| diag_up_mask((i / 3) as u64, (i % 3) as u64)) + Seq::new(
        12,
        |i: int| diag_down_mask((i / 3) as u64, (i % 3) as u64),
    )
}

/// Every entry of the table is a window.
pub proof fn lemma_win_masks_sound()
    ensures
        win_masks_seq().len() == 69,
        forall|i: int| 0 <= i < 69 ==> is_win_mask(#[trigger] win_masks_seq()[i]),
{
    assert forall|i: int| 0 <= i < 69 implies is_win_mask(#[trigger] win_masks_seq()[i]) by {
        if i < 21 {
            let x = (i / 3) as u64;
            let y = (i % 3) as u64;
            assert(x < 7 && y < 3 && win_masks_seq()[i] == vert_mask(x, y));
        } else if i < 45 {
            let j = i - 21;
            let x = (j / 6) as u64;
            let y = (j % 6) as u64;
            assert(x < 4 && y < 6 && win_masks_seq()[i] == horiz_mask(x, y));
        } else if i < 57 {
            let j = i - 45;
            let x = (j / 3) as u64;
            let y = (j % 3) as u64;
            assert(x < 4 && y < 3 && win_masks_seq()[i] == diag_up_mask(x, y));
        } else {
            let j = i - 57;
            let x = (j / 3) as u64;
            let y = (j % 3) as u64;
            assert(x < 4 && y < 3 && win_masks_seq()[i] == diag_down_mask(x, y));
        }
    }
}

/// Every window occurs in the table.
pub proof fn lemma_win_masks_complete(m: u64)
    requires
        is_win_mask(m),
    ensures
        win_masks_seq().contains(m),
{
    if exists|x: u64, y: u64| x < 7 && y < 3 && m == vert_mask(x, y) {
        let (x, y) = choose|x: u64, y: u64| x < 7 && y < 3 && m == vert_mask(x, y);
        let i: int = 3 * x + y;
        assert(i / 3 == x && i % 3 == y) by (nonlinear_arith)
            requires
                x < 7 && y < 3 && i == 3 * x + y,
        ;
        assert(win_masks_seq()[i] == m);
    } else if exists|x: u64, y: u64| x < 4 && y < 6 && m == horiz_mask(x, y) {
        let (x, y) = choose|x: u64, y: u64| x < 4 && y < 6 && m == horiz_mask(x, y);
        let j: int = 6 * x + y;
        assert(j / 6 == x && j % 6 == y) by (nonlinear_arith)
            requires
                x < 4 && y < 6 && j == 6 * x + y,
        ;
        assert(win_masks_seq()[21 + j] == m);
    } else if exists|x: u64, y: u64| x < 4 && y < 3 && m == diag_up_mask(x, y) {
        let (x, y) = choose|x: u64, y: u64| x < 4 && y < 3 && m == diag_up_mask(x, y);
        let j: int = 3 * x + y;
        assert(j / 3 == x && j % 3 == y) by (nonlinear_arith)
            requires
                x < 4 && y < 3 && j == 3 * x + y,
        ;
        assert(win_masks_seq()[45 + j] == m);
    } else {
        let (x, y) = choose|x: u64, y: u64| x < 4 && y < 3 && m == diag_down_mask(x, y);
        let j: int = 3 * x + y;
        assert(j / 3 == x && j % 3 == y) by (nonlinear_arith)
            requires
                x < 4 && y < 3 && j == 3 * x + y,
        ;
        assert(win_masks_seq()[57 + j] == m);
    }
}

/// Builds the window table. The masks are derived from the grid geometry
/// alone, so a caller can regenerate and inspect them independently of the
/// packed representation.
pub fn generate_win_masks() -> (masks: Vec<u64>)
    ensures
        masks@ == win_masks_seq(),
{
    let mut masks: Vec<u64> = Vec::new();
    let mut i: usize = 0;
    while i < 21
        invariant
            i <= 21,
            masks@ == Seq::new(i as nat, |k: int| vert_mask((k / 3) as u64, (k % 3) as u64)),
        decreases 21 - i,
    {
        let x: u64 = (i / 3) as u64;
        let y: u64 = (i % 3) as u64;
        masks.push(0x0fu64 << (8 * x + y));
        i = i + 1;
        proof {
            assert(masks@ =~= Seq::new(i as nat, |k: int| vert_mask((k / 3) as u64, (k % 3) as u64)));
        }
    }
    let ghost vs = masks@;
    let mut i: usize = 0;
    while i < 24
        invariant
            i <= 24,
            vs == Seq::new(21, |k: int| vert_mask((k / 3) as u64, (k % 3) as u64)),
            masks@ == vs + Seq::new(i as nat, |k: int| horiz_mask((k / 6) as u64, (k % 6) as u64)),
        decreases 24 - i,
    {
        let x: u64 = (i / 6) as u64;
        let y: u64 = (i % 6) as u64;
        masks.push(0x01010101u64 << (8 * x + y));
        i = i + 1;
        proof {
            assert(masks@ =~= vs + Seq::new(
                i as nat,
                |k: int| horiz_mask((k / 6) as u64, (k % 6) as u64),
            ));
        }
    }
    let ghost hs = masks@;
    let mut i: usize = 0;
    while i < 12
        invariant
            i <= 12,
            hs == win_masks_seq().take(45),
            masks@ == hs + Seq::new(i as nat, |k: int| diag_up_mask((k / 3) as u64, (k % 3) as u64)),
        decreases 12 - i,
    {
        let x: u64 = (i / 3) as u64;
        let y: u64 = (i % 3) as u64;
        masks.push(0x08040201u64 << (8 * x + y));
        i = i + 1;
        proof {
            assert(masks@ =~= hs + Seq::new(
                i as nat,
                |k: int| diag_up_mask((k / 3) as u64, (k % 3) as u64),
            ));
        }
    }
    let ghost ds = masks@;
    let mut i: usize = 0;
    while i < 12
        invariant
            i <= 12,
            ds == win_masks_seq().take(57),
            masks@ == ds + Seq::new(
                i as nat,
                |k: int| diag_down_mask((k / 3) as u64, (k % 3) as u64),
            ),
        decreases 12 - i,
    {
        let x: u64 = (i / 3) as u64;
        let y: u64 = (i % 3) as u64;
        masks.push(0x01020408u64 << (8 * x + y));
        i = i + 1;
        proof {
            assert(masks@ =~= ds + Seq::new(
                i as nat,
                |k: int| diag_down_mask((k / 3) as u64, (k % 3) as u64),
            ));
        }
    }
    proof {
        assert(masks@ =~= win_masks_seq());
    }
    masks
}

// ---------------------------------------------------------------------------
// Moves and bit boards.
// ---------------------------------------------------------------------------

/// One stone placement: column `x` (0..=6) and row `y` (0..=5, bottom row
/// first). A move is only meaningful for a board where `y` equals the
/// current stack height of column `x`.
#[derive(Debug, Copy, Clone, PartialEq, Eq, Structural)]
pub struct Move {
    pub x: u8,
    pub y: u8,
}

impl Move {
    pub fn new(x: u8, y: u8) -> (m: Move)
        ensures
            m == (Move { x, y }),
    {
        Move { x, y }
    }
}

/// One player's stones, packed as described at the top of this file.
#[derive(Debug, Copy, Clone, PartialEq, Eq, Hash, Structural)]
pub struct Bitboard {
    pub data: u64,
}

/// The horizontal reflection of a packed word: lane `x` of the result is
/// lane `6 - x` of the argument; the padding byte is cleared.
pub open spec fn mirror64(d: u64) -> u64 {
    ((d & 0xff) << 48) | (((d >> 8) & 0xff) << 40) | (((d >> 16) & 0xff) << 32) | (((d >> 24)
        & 0xff) << 24) | (((d >> 32) & 0xff) << 16) | (((d >> 40) & 0xff) << 8) | ((d >> 48) & 0xff)
}

impl Bitboard {
    pub fn new() -> (b: Bitboard)
        ensures
            b.data == 0,
    {
        Bitboard { data: 0 }
    }

    /// Tests the cell with row-major index `pos` (0..=41), row 0 at the top.
    pub fn getp(&self, pos: u8) -> (r: bool)
        requires
            pos < 42,
        ensures
            r == occ(self.data, (pos % 7) as u64, (5 - pos / 7) as u64),
    {
        let row: u8 = pos / 7;  // integer division rounds down
        let index: u8 = 5 - row + 8 * (pos - 7 * row);
        let r = self.data & (1u64 << index) != 0;
        proof {
            assert(pos % 7 == pos - 7 * (pos / 7));
            assert(index == 8 * (pos % 7) + (5 - pos / 7));
        }
        r
    }

    /// Returns the horizontally reflected board (column `x` becomes column
    /// `6 - x`), by reversing the lane order.
    pub fn do_symmetry(&self) -> (r: Bitboard)
        ensures
            r.data == mirror64(self.data),
    {
        let d = self.data;
        let m = ((d & 0xff) << 48) | (((d >> 8) & 0xff) << 40) | (((d >> 16) & 0xff) << 32) | (((d
            >> 24) & 0xff) << 24) | (((d >> 32) & 0xff) << 16) | (((d >> 40) & 0xff) << 8) | ((d
            >> 48) & 0xff)
        ;
        Bitboard { data: m }
    }

    /// Sets the single bit for `mv`. The caller must guarantee that the cell
    /// is empty; all call sites route through the board's move generation,
    /// which also guarantees that `mv.y` is the current column height.
    pub fn do_move(&self, mv: Move) -> (r: Bitboard)
        requires
            mv.x < 7,
            mv.y < 6,
            !occ(self.data, mv.x as u64, mv.y as u64),
        ensures
            r.data == self.data | cell_bit(mv.x as u64, mv.y as u64),
    {
        proof {
            lemma_add_unset_bit(self.data, (8 * mv.x + mv.y) as u64);
        }
        let data = self.data + (1u64 << (8 * mv.x + mv.y) as u64);
        Bitboard { data }
    }
}

/// Adding a power of two whose bit is clear neither overflows nor carries.
proof fn lemma_add_unset_bit(a: u64, k: u64)
    by (bit_vector)
    requires
        k < 64,
        a & (1u64 << k) == 0,
    ensures
        a + (1u64 << k) <= u64::MAX,
        a + (1u64 << k) == (a | (1u64 << k)),
{
}

} // verus!
