use connect_four::board::Win;
use connect_four::simulate::{play, u8_decimal, BatchSettings, CSVRow, Progress, CSV};
use connect_four::strategy::{Center, Greedy, Minimax, Random};

#[test]
fn decimals_render_without_leading_zeros() {
    assert_eq!(u8_decimal(0), "0");
    assert_eq!(u8_decimal(9), "9");
    assert_eq!(u8_decimal(10), "10");
    assert_eq!(u8_decimal(42), "42");
    assert_eq!(u8_decimal(100), "100");
    assert_eq!(u8_decimal(255), "255");
}

#[test]
fn outcome_labels() {
    assert_eq!(Win::Ongoing.label(), "None");
    assert_eq!(Win::Red.label(), "Red");
    assert_eq!(Win::Yellow.label(), "Yellow");
    assert_eq!(Win::Tie.label(), "Tie");
}

#[test]
fn csv_row_renders_comma_separated_crlf() {
    let row = CSVRow::new("a".to_owned(), "b".to_owned(), Win::Tie, 7);
    assert_eq!(row.out(), "a,b,Tie,7\r\n");
    let row = CSVRow::new("M10".to_owned(), "R".to_owned(), Win::Red, 42);
    assert_eq!(row.out(), "M10,R,Red,42\r\n");
}

#[test]
fn csv_collects_rows_in_order() {
    let mut csv = CSV::new();
    csv.add(CSVRow::new("x".to_owned(), "y".to_owned(), Win::Red, 9));
    csv.add(CSVRow::new("y".to_owned(), "x".to_owned(), Win::Yellow, 12));
    let lines = csv.lines();
    assert_eq!(lines, vec!["x,y,Red,9\r\n".to_owned(), "y,x,Yellow,12\r\n".to_owned()]);
}

#[test]
fn progress_bar_advances_in_fifty_slots() {
    let mut p = Progress::new(100);
    // one game of a hundred: the bar has no new slot yet
    assert_eq!(p.advance(), None);
    // the second game fills the first slot
    let bar = p.advance().expect("bar should grow");
    assert_eq!(bar.len(), 50);
    assert!(bar.starts_with('='));
    assert_eq!(bar.matches('=').count(), 1);
    assert_eq!(bar.matches(' ').count(), 49);
    // no new slot until the next multiple
    assert_eq!(p.advance(), None);
    assert_eq!(p.current(), 3);
    assert_eq!(p.total(), 100);
}

#[test]
fn progress_bar_fills_halfway() {
    let mut p = Progress::new(2);
    let bar = p.advance().expect("half the work done");
    assert_eq!(bar.matches('=').count(), 25);
    assert_eq!(bar.matches(' ').count(), 25);
}

#[test]
fn batch_settings_are_plain_data() {
    let s = BatchSettings { count: 100, batch_size: 5 };
    let t = s;
    assert_eq!(t.count, 100);
    assert_eq!(t.batch_size, 5);
}

#[test]
fn center_strategy_self_play_ends_within_42_moves() {
    let row = play(&Center::new(), &Center::new()).out();
    let fields: Vec<&str> = row.trim_end().split(',').collect();
    assert_eq!(fields.len(), 4);
    assert_eq!(fields[0], "C");
    assert_eq!(fields[1], "C");
    assert_ne!(fields[2], "None");
    let count: u32 = fields[3].parse().expect("move count");
    assert!((1..=42).contains(&count));
    // red moves on odd counts, yellow on even ones, a tie fills the grid
    match fields[2] {
        "Red" => assert_eq!(count % 2, 1),
        "Yellow" => assert_eq!(count % 2, 0),
        "Tie" => assert_eq!(count, 42),
        other => panic!("unexpected winner {other}"),
    }
}

#[test]
fn search_beats_itself_or_ties_within_42_moves() {
    let red = Minimax::new(Greedy::new(), 2);
    let yellow = Random::new();
    let row = play(&red, &yellow).out();
    let fields: Vec<&str> = row.trim_end().split(',').collect();
    assert_eq!(fields[0], "M2");
    assert_eq!(fields[1], "R");
    assert_ne!(fields[2], "None");
    let count: u32 = fields[3].parse().expect("move count");
    assert!((1..=42).contains(&count));
    match fields[2] {
        "Red" => assert_eq!(count % 2, 1),
        "Yellow" => assert_eq!(count % 2, 0),
        "Tie" => assert_eq!(count, 42),
        other => panic!("unexpected winner {other}"),
    }
}
