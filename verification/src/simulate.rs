use vstd::prelude::*;

use crate::bitboard::{Bitboard, Move};
use crate::board::{Board, Win};
use crate::strategy::Strategy;
use vstd::string::StringExecFns;

verus! {

// ---------------------------------------------------------------------------
// Decimal rendering.
// ---------------------------------------------------------------------------

/// The decimal digit `d` as text.
pub open spec fn dec_digit(d: int) -> Seq<char> {
    if d == 0 {
        "0"@
    } else if d == 1 {
        "1"@
    } else if d == 2 {
        "2"@
    } else if d == 3 {
        "3"@
    } else if d == 4 {
        "4"@
    } else if d == 5 {
        "5"@
    } else if d == 6 {
        "6"@
    } else if d == 7 {
        "7"@
    } else if d == 8 {
        "8"@
    } else {
        "9"@
    }
}

/// The decimal rendering of `n` (0..=255), without leading zeros.
pub open spec fn dec_spec(n: int) -> Seq<char> {
    if n < 10 {
        dec_digit(n)
    } else if n < 100 {
        dec_digit(n / 10) + dec_digit(n % 10)
    } else {
        dec_digit(n / 100) + dec_digit((n / 10) % 10) + dec_digit(n % 10)
    }
}

fn digit_str(d: u8) -> (s: &'static str)
    requires
        d < 10,
    ensures
        s@ == dec_digit(d as int),
{
    match d {
        0 => "0",
        1 => "1",
        2 => "2",
        3 => "3",
        4 => "4",
        5 => "5",
        6 => "6",
        7 => "7",
        8 => "8",
        _ => "9",
    }
}

/// Renders `n` in decimal.
pub fn u8_decimal(n: u8) -> (s: String)
    ensures
        s@ == dec_spec(n as int),
{
    let mut s = String::new();
    if n >= 100 {
        s.append(digit_str(n / 100));
    }
    if n >= 10 {
        s.append(digit_str((n / 10) % 10));
    }
    s.append(digit_str(n % 10));
    proof {
        assert(s@ =~= dec_spec(n as int));
    }
    s
}

// ---------------------------------------------------------------------------
// Result rows.
// ---------------------------------------------------------------------------

/// The outcome's short name, as the result log prints it.
pub open spec fn win_label_spec(w: Win) -> Seq<char> {
    match w {
        Win::Ongoing => "None"@,
        Win::Red => "Red"@,
        Win::Yellow => "Yellow"@,
        Win::Tie => "Tie"@,
    }
}

impl Win {
    /// The outcome's short name.
    pub fn label(&self) -> (s: String)
        ensures
            s@ == win_label_spec(*self),
    {
        match self {
            Win::Ongoing => "None".to_owned(),
            Win::Red => "Red".to_owned(),
            Win::Yellow => "Yellow".to_owned(),
            Win::Tie => "Tie".to_owned(),
        }
    }
}

/// One finished game: the two strategy names, the outcome and the number
/// of moves played.
pub struct CSVRow {
    red: String,
    yellow: String,
    winner: Win,
    move_count: u8,
}

impl CSVRow {
    pub closed spec fn spec_red(self) -> Seq<char> {
        self.red@
    }

    pub closed spec fn spec_yellow(self) -> Seq<char> {
        self.yellow@
    }

    pub closed spec fn spec_winner(self) -> Win {
        self.winner
    }

    pub closed spec fn spec_move_count(self) -> u8 {
        self.move_count
    }

    pub fn new(red: String, yellow: String, winner: Win, move_count: u8) -> (row: CSVRow)
        ensures
            row.spec_red() == red@,
            row.spec_yellow() == yellow@,
            row.spec_winner() == winner,
            row.spec_move_count() == move_count,
    {
        CSVRow { red, yellow, winner, move_count }
    }

    /// The row's text: the four fields comma-separated, CRLF-terminated.
    pub open spec fn out_spec(self) -> Seq<char> {
        self.spec_red() + ","@ + self.spec_yellow() + ","@ + win_label_spec(self.spec_winner())
            + ","@ + dec_spec(self.spec_move_count() as int) + "\r\n"@
    }

    pub fn out(&self) -> (s: String)
        ensures
            s@ == self.out_spec(),
    {
        let mut s = self.red.clone();
        s.append(",");
        s.append(self.yellow.as_str());
        s.append(",");
        let label = self.winner.label();
        s.append(label.as_str());
        s.append(",");
        let count = u8_decimal(self.move_count);
        s.append(count.as_str());
        s.append("\r\n");
        proof {
            assert(s@ =~= self.out_spec());
        }
        s
    }
}

/// A batch of result rows waiting to be written out.
pub struct CSV {
    rows: Vec<CSVRow>,
}

impl CSV {
    pub closed spec fn spec_rows(self) -> Seq<CSVRow> {
        self.rows@
    }

    pub fn new() -> (c: CSV)
        ensures
            c.spec_rows().len() == 0,
    {
        CSV { rows: Vec::new() }
    }

    pub fn add(&mut self, row: CSVRow)
        ensures
            final(self).spec_rows() == old(self).spec_rows().push(row),
    {
        self.rows.push(row);
    }

    /// The rows' text lines, in order; what a writer appends to the log.
    pub fn lines(&self) -> (v: Vec<String>)
        ensures
            v@.len() == self.spec_rows().len(),
            forall|i: int|
                0 <= i < v@.len() ==> (#[trigger] v@[i])@ == self.spec_rows()[i].out_spec(),
    {
        let mut v: Vec<String> = Vec::new();
        let mut i: usize = 0;
        while i < self.rows.len()
            invariant
                i <= self.rows@.len(),
                v@.len() == i,
                forall|j: int|
                    0 <= j < i ==> (#[trigger] v@[j])@ == self.rows@[j].out_spec(),
            decreases self.rows@.len() - i,
        {
            v.push(self.rows[i].out());
            i = i + 1;
        }
        v
    }
}

// ---------------------------------------------------------------------------
// Batch bookkeeping.
// ---------------------------------------------------------------------------

/// How many games to play in all, and how many between two log writes.
#[derive(Clone, Copy)]
pub struct BatchSettings {
    pub count: u32,
    pub batch_size: u32,
}

/// The text of a 50-slot progress bar with `p` slots filled.
pub open spec fn bar_spec(p: int) -> Seq<char> {
    Seq::new(p as nat, |i: int| '=') + Seq::new((50 - p) as nat, |i: int| ' ')
}

/// Counts finished games toward a total and reports when the 50-slot bar
/// gains a new slot. The counting is done here; printing the bar is the
/// caller's business.
pub struct Progress {
    current: u32,
    current_bar: usize,
    total: u32,
}

impl Progress {
    pub closed spec fn spec_current(self) -> u32 {
        self.current
    }

    pub closed spec fn spec_total(self) -> u32 {
        self.total
    }

    pub closed spec fn spec_bar(self) -> int {
        self.current_bar as int
    }

    /// How many games have been counted so far.
    pub fn current(&self) -> (c: u32)
        ensures
            c == self.spec_current(),
    {
        self.current
    }

    /// The configured total.
    pub fn total(&self) -> (t: u32)
        ensures
            t == self.spec_total(),
    {
        self.total
    }

    pub fn new(total: u32) -> (p: Progress)
        ensures
            p.spec_current() == 0,
            p.spec_bar() == 0,
            p.spec_total() == total,
    {
        Progress { current: 0, current_bar: 0, total }
    }

    /// Counts one finished game. When the bar grows, returns its new text.
    pub fn advance(&mut self) -> (bar: Option<String>)
        requires
            old(self).spec_total() > 0,
            old(self).spec_current() < old(self).spec_total(),
        ensures
            final(self).spec_current() == old(self).spec_current() + 1,
            final(self).spec_total() == old(self).spec_total(),
            ({
                let p = final(self).spec_current() as int * 50 / old(self).spec_total() as int;
                &&& (bar is Some <==> p > old(self).spec_bar())
                &&& final(self).spec_bar() == (if p > old(self).spec_bar() {
                    p
                } else {
                    old(self).spec_bar()
                })
                &&& (bar matches Some(s) ==> s@ == bar_spec(p))
            }),
    {
        self.current = self.current + 1;
        let p64: u64 = ((self.current as u64) * 50) / (self.total as u64);
        proof {
            assert(p64 <= 50) by (nonlinear_arith)
                requires
                    p64 == (self.current as int * 50) / (self.total as int),
                    0 < self.current <= self.total,
                    self.total <= u32::MAX,
            ;
        }
        let progress: usize = p64 as usize;
        if progress > self.current_bar {
            self.current_bar = progress;
            let mut s = String::new();
            proof {
                reveal_strlit("=");
                reveal_strlit(" ");
            }
            let mut i: usize = 0;
            while i < progress
                invariant
                    i <= progress,
                    s@ =~= Seq::new(i as nat, |k: int| '='),
                decreases progress - i,
            {
                s.append("=");
                proof {
                    reveal_strlit("=");
                    assert(s@ =~= Seq::new((i + 1) as nat, |k: int| '='));
                }
                i = i + 1;
            }
            let mut i: usize = progress;
            while i < 50
                invariant
                    progress <= 50,
                    progress <= i <= 50,
                    s@ =~= Seq::new(progress as nat, |k: int| '=') + Seq::new(
                        (i - progress) as nat,
                        |k: int| ' ',
                    ),
                decreases 50 - i,
            {
                s.append(" ");
                proof {
                    reveal_strlit(" ");
                    assert(s@ =~= Seq::new(progress as nat, |k: int| '=') + Seq::new(
                        (i + 1 - progress) as nat,
                        |k: int| ' ',
                    ));
                }
                i = i + 1;
            }
            Some(s)
        } else {
            None
        }
    }
}

// ---------------------------------------------------------------------------
// The game loop.
// ---------------------------------------------------------------------------

/// Runs one game from the empty board: the mover's strategy is asked for a
/// move (through the tactical safety net) and the move is applied, until
/// the position is terminal. The returned row carries the two strategies'
/// names and the game actually played: every game ends, in at most 42
/// moves, in a win or a tie; a tie fills all 42 cells; red can only win on
/// one of its own (odd-numbered) moves and yellow on an even-numbered one.
#[verifier::rlimit(100)]
#[verifier::spinoff_prover]
pub fn play<R: Strategy + ?Sized, Y: Strategy + ?Sized>(red: &R, yellow: &Y) -> (row: CSVRow)
    ensures
        row.spec_red() == red.name_spec(),
        row.spec_yellow() == yellow.name_spec(),
        row.spec_winner() != Win::Ongoing,
        1 <= row.spec_move_count() <= 42,
        row.spec_winner() == Win::Tie ==> row.spec_move_count() == 42,
        row.spec_winner() == Win::Red ==> row.spec_move_count() % 2 == 1,
        row.spec_winner() == Win::Yellow ==> row.spec_move_count() % 2 == 0,
{
    let mut board = Board { red: Bitboard::new(), yellow: Bitboard::new(), red_to_play: true };
    proof {
        board.lemma_empty_valid();
        crate::board::lemma_zero_no_window();
    }
    let mut mv = Move { x: 254, y: 254 };
    let mut move_count: u8 = 0;
    let mut outcome = board.win();
    while matches!(outcome, Win::Ongoing)
        invariant
            board.valid(),
            move_count as int == board.stones(),
            move_count <= 42,
            board.terminal() ==> move_count >= 1,
            board.red_to_play <==> move_count % 2 == 0,
            matches!(outcome, Win::Ongoing) == !board.terminal(),
            outcome == Win::Red ==> crate::bitboard::wins(board.red.data),
            outcome == Win::Yellow ==> crate::bitboard::wins(board.yellow.data),
            outcome == Win::Tie ==> board.full(),
            // the player to move has never completed a window: only the
            // player who just moved can have done so
            board.red_to_play ==> !crate::bitboard::wins(board.red.data),
            !board.red_to_play ==> !crate::bitboard::wins(board.yellow.data),
        decreases 42 - board.stones(),
    {
        proof {
            board.lemma_bounded_game();
        }
        let ghost before = board;
        mv = if board.red_to_play {
            red.best_move_wb(board, mv)
        } else {
            yellow.best_move_wb(board, mv)
        };
        board = board.do_move(mv);
        move_count = move_count + 1;
        outcome = board.win();
        proof {
            // the mover's opponent's word is untouched, so a window the
            // opponent did not have before cannot appear now
            assert(before.red_to_play ==> board.yellow == before.yellow);
            assert(!before.red_to_play ==> board.red == before.red);
        }
    }
    proof {
        board.lemma_bounded_game();
    }
    let red_name = red.name();
    let yellow_name = yellow.name();
    CSVRow::new(red_name, yellow_name, outcome, move_count)
}

} // verus!
