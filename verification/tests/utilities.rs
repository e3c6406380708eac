use std::str::FromStr;
use wazir_drop::clock::{Stopwatch, Timer};
use wazir_drop::log::{should_log, Level};
use wazir_drop::mov::{Move as OldMove, OpeningMove, RegularMove as OldRegularMove};
use wazir_drop::color::Color;
use wazir_drop::piece::Piece;
use wazir_drop::smallvec::SmallVec;
use wazir_drop::square::Square;
use wazir_drop::moves::Move;

fn text(f: impl Fn(&mut Vec<u8>)) -> String {
    let mut out = Vec::new();
    f(&mut out);
    String::from_utf8(out).unwrap()
}

#[test]
fn smallvec_push_pop() {
    let mut v: SmallVec<u8, 3> = SmallVec::new();
    assert!(v.is_empty());
    v.push(1);
    v.push(2);
    assert_eq!(v.len(), 2);
    assert_eq!(*v.get(1), 2);
    assert_eq!(v.as_slice(), &[1, 2]);
    assert_eq!(v.pop(), Some(2));
    assert_eq!(v.pop(), Some(1));
    assert_eq!(v.pop(), None);
    v.push(9);
    v.clear();
    assert_eq!(v.len(), 0);
}

#[test]
fn log_levels() {
    assert!(should_log(Level::Always, Level::Info));
    assert!(should_log(Level::Info, Level::Info));
    assert!(!should_log(Level::Verbose, Level::Info));
}

#[test]
fn stopwatch_and_timer() {
    let mut s = Stopwatch::new();
    assert_eq!(s.get(), 0);
    s.start();
    s.stop();
    let t1 = s.get();
    s.start();
    assert!(s.get() >= t1);
    s.stop();
    let mut timer = Timer::new(1_000_000_000);
    assert_eq!(timer.get(), 1_000_000_000);
    timer.start();
    timer.stop();
    assert!(timer.get() <= 1_000_000_000);
    assert_eq!(timer.get() + timer.get_used(), 1_000_000_000);
}

#[test]
fn opening_move_text() {
    let red = OpeningMove::parse_str("AAAAAAAADDDDFFNW").unwrap();
    assert_eq!(red.color, Color::Red);
    assert_eq!(red.pieces[15], Piece::Wazir);
    assert_eq!(text(|o| red.write_ascii(o)), "AAAAAAAADDDDFFNW");
    let blue = OpeningMove::parse_str("aaaaaaaaddddffnw").unwrap();
    assert_eq!(blue.color, Color::Blue);
    assert_eq!(blue.pieces[0], Piece::Wazir);
    assert_eq!(text(|o| blue.write_ascii(o)), "aaaaaaaaddddffnw");
    assert!(OpeningMove::parse_str("AAAAAAAAADDDFFNW").is_err());
    assert!(OpeningMove::parse_str("AAAAAAAADDDDFFNw").is_err());
    assert!(OpeningMove::parse_str("AAAA").is_err());
}

#[test]
fn old_regular_move_text() {
    let drop = OldRegularMove { color: Color::Blue, piece: Piece::Knight, captured: None, from: None, to: Square::C3 };
    assert_eq!(text(|o| drop.write_ascii(o)), "nc3");
    let jump = OldRegularMove { color: Color::Red, piece: Piece::Ferz, captured: None, from: Some(Square::A1), to: Square::B2 };
    assert_eq!(text(|o| OldMove::Regular(jump).write_ascii(o)), "a1b2");
}

#[test]
fn move_text_roundtrip() {
    for s in ["A@a1", "Aa1-c3", "Nb1xwc3", "AAAAAAAADDDDFFNW"] {
        let m = Move::from_str(s).unwrap();
        assert_eq!(text(|o| m.write_ascii(o)), s);
    }
}
