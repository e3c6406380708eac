use std::str::FromStr;
use wazir_drop::board::Board;
use wazir_drop::color::Color;
use wazir_drop::movegen;
use wazir_drop::movegen::{
    any_move_from_short_move, captures, in_check, move_bitboard, moves, setup_moves, validate_from_to,
    AnyPseudomoves,
};
use wazir_drop::moves::{Move, RegularMove, SetupMove, ShortMove};
use wazir_drop::parser::{Parser, ParserExt};
use wazir_drop::piece::{ColoredPiece, Piece};
use wazir_drop::position::{Outcome, Position, Stage};
use wazir_drop::square::Square;

fn text(f: impl Fn(&mut Vec<u8>)) -> String {
    let mut out = Vec::new();
    f(&mut out);
    String::from_utf8(out).unwrap()
}

fn after_setup() -> Position {
    let p = Position::initial();
    let p = p.make_move(Move::from_str("AAAAAAAADDDDFFNW").unwrap()).unwrap();
    p.make_move(Move::from_str("aaaaaaaaddddffnw").unwrap()).unwrap()
}

#[test]
fn initial_position_is_setup() {
    let p = Position::initial();
    assert_eq!(p.stage(), Stage::Setup);
    assert_eq!(p.move_number(), 0);
    assert_eq!(p.to_move(), Color::Red);
    assert!(p.empty_squares().count() == 64);
}

#[test]
fn setup_moves_place_pieces() {
    let p = after_setup();
    assert_eq!(p.stage(), Stage::Regular);
    assert_eq!(p.move_number(), 2);
    assert_eq!(p.square(Square::A1), Some(ColoredPiece::RedAlfil));
    assert_eq!(p.square(Square::B8), Some(ColoredPiece::RedWazir));
    // blue's setup text is written from square 48 up: its last letter lands on h8
    assert_eq!(p.square(Square::H8), Some(ColoredPiece::BlueWazir));
    assert_eq!(p.square(Square::G1), Some(ColoredPiece::BlueAlfil));
    assert_eq!(p.wazir_square(Color::Red), Some(Square::B8));
    assert_eq!(p.wazir_square(Color::Blue), Some(Square::H8));
    assert!(!in_check(&p, Color::Red));
}

#[test]
fn setup_move_errors() {
    let p = Position::initial();
    // blue may not set up first
    assert!(p.make_move(Move::from_str("aaaaaaaaddddffnw").unwrap()).is_err());
    // too many alfils
    let bad = SetupMove { color: Color::Red, pieces: [Piece::Alfil; 16] };
    assert!(bad.validate_pieces().is_err());
    assert!(p.make_setup_move(bad).is_err());
    // a regular move in the setup stage
    assert!(p.make_move(Move::from_str("A@a1").unwrap()).is_err());
}

#[test]
fn regular_moves_and_errors() {
    let p = after_setup();
    // the red alfil on a1 leaps two squares diagonally, to c3
    let m = RegularMove::from_str("Aa1-c3").unwrap();
    let q = p.make_regular_move(m).unwrap();
    assert_eq!(q.square(Square::C3), Some(ColoredPiece::RedAlfil));
    assert_eq!(q.square(Square::A1), None);
    assert_eq!(q.to_move(), Color::Blue);
    // not red's piece's leap
    assert!(p.make_regular_move(RegularMove::from_str("Aa1-b2").unwrap()).is_err());
    // no red piece in hand to drop
    assert!(p.make_regular_move(RegularMove::from_str("A@e4").unwrap()).is_err());
    // blue may not move now
    assert!(p.make_regular_move(RegularMove::from_str("ag1-e3").unwrap()).is_err());
}

#[test]
fn move_tables() {
    let b = move_bitboard(Piece::Wazir, Square::A1);
    assert_eq!(b.count(), 2);
    assert!(b.contains(Square::A2));
    assert!(b.contains(Square::B1));
    let k = move_bitboard(Piece::Knight, Square::D4);
    assert_eq!(k.count(), 8);
    assert!(validate_from_to(Piece::Alfil, Square::A1, Square::C3).is_ok());
    assert!(validate_from_to(Piece::Alfil, Square::A1, Square::B2).is_err());
    assert!(validate_from_to(Piece::Ferz, Square::A1, Square::B2).is_ok());
    assert!(validate_from_to(Piece::Dabbaba, Square::A1, Square::A3).is_ok());
}

#[test]
fn generated_moves_are_legal() {
    let p = after_setup();
    let ms = moves(&p);
    assert!(!ms.is_empty());
    for m in ms {
        assert!(p.make_regular_move(m).is_ok());
    }
    assert!(captures(&p).is_empty());
}

#[test]
fn short_moves_complete_to_moves() {
    let p = after_setup();
    let sm = ShortMove::from_str("a1c3").unwrap();
    match any_move_from_short_move(&p, sm).unwrap() {
        Move::Regular(m) => {
            assert_eq!(m.colored_piece, ColoredPiece::RedAlfil);
            assert_eq!(m.from, Some(Square::A1));
            assert_eq!(m.to, Square::C3);
            assert_eq!(m.captured, None);
        }
        Move::Setup(_) => panic!("expected a regular move"),
    }
    // empty origin square
    assert!(any_move_from_short_move(&p, ShortMove::from_str("e4e5").unwrap()).is_err());
    // a setup move in the regular stage
    assert!(any_move_from_short_move(&p, ShortMove::from_str("AAAAAAAADDDDFFNW").unwrap()).is_err());
    let start = Position::initial();
    assert!(any_move_from_short_move(&start, ShortMove::from_str("AAAAAAAADDDDFFNW").unwrap()).is_ok());
}

#[test]
fn setup_enumeration_order() {
    let mut it = setup_moves(Color::Blue);
    let first = it.next().unwrap();
    assert_eq!(first.color, Color::Blue);
    let mut expected = [Piece::Alfil; 16];
    for (i, p) in expected.iter_mut().enumerate() {
        *p = match i {
            0..=7 => Piece::Alfil,
            8..=11 => Piece::Dabbaba,
            12..=13 => Piece::Ferz,
            14 => Piece::Knight,
            _ => Piece::Wazir,
        };
    }
    assert_eq!(first.pieces, expected);
    let second = it.next().unwrap();
    let mut e2 = expected;
    e2.swap(14, 15);
    assert_eq!(second.pieces, e2);
    let third = it.next().unwrap();
    assert!(third.validate_pieces().is_ok());
    assert!(third.pieces > second.pieces);
}

#[test]
fn position_text_roundtrip() {
    let p = after_setup();
    let t = text(|out| p.write_ascii(out));
    let q = Position::parser().parse_all(t.as_bytes()).unwrap();
    assert_eq!(text(|out| q.write_ascii(out)), t);
    assert_eq!(q.hash(), p.hash());
    assert!(t.starts_with("regular\n2\n\n"));
}

#[test]
fn outcome_text() {
    assert_eq!(text(|out| Outcome::RedWin.write_ascii(out)), "red_win");
    assert_eq!(Outcome::parser().parse_all(b"blue_win").unwrap(), Outcome::BlueWin);
    assert!(Outcome::parser().parse_all(b"blue").is_err());
    assert_eq!(Outcome::win(Color::Blue), Outcome::BlueWin);
    assert_eq!(Outcome::Draw.red_score(), 0);
    assert_eq!(text(|out| Stage::End(Outcome::Draw).write_ascii(out)), "end draw");
}

#[test]
fn board_place_and_remove() {
    let mut b = Board::empty();
    assert!(b.place_piece(Square::C3, ColoredPiece::BlueKnight).is_ok());
    assert!(b.place_piece(Square::C3, ColoredPiece::RedFerz).is_err());
    assert_eq!(b.square(Square::C3), Some(ColoredPiece::BlueKnight));
    assert!(b.remove_piece(Square::C3, ColoredPiece::RedFerz).is_err());
    assert!(b.remove_piece(Square::C3, ColoredPiece::BlueKnight).is_ok());
    assert_eq!(b.square(Square::C3), None);
    assert_eq!(b.hash(), Board::empty().hash());
}

#[test]
fn any_pseudomoves_by_stage() {
    let p = Position::initial();
    match movegen::any_pseudomoves(&p) {
        AnyPseudomoves::Setup(mut it) => {
            let first = it.next().unwrap();
            assert_eq!(first.color, Color::Red);
            let mut text = Vec::new();
            first.write_ascii(&mut text);
            assert_eq!(text, b"AAAAAAAADDDDFFNW".to_vec());
        }
        AnyPseudomoves::Regular(_) => panic!("setup expected"),
    }
    let p = p.make_move(Move::from_str("AAAAAAAADDDDFFNW").unwrap()).unwrap();
    let p = p.make_move(Move::from_str("aaaaaaaaddddffnw").unwrap()).unwrap();
    match movegen::any_pseudomoves(&p) {
        AnyPseudomoves::Regular(v) => assert_eq!(v, movegen::pseudomoves(&p)),
        AnyPseudomoves::Setup(_) => panic!("regular moves expected"),
    }
}

#[test]
fn move_texts_read_back() {
    let p = after_setup();
    let all = movegen::pseudomoves(&p);
    assert!(!all.is_empty());
    for m in all {
        let t = text(|out| m.write_ascii(out));
        assert_eq!(RegularMove::from_str(&t).unwrap(), m);
        assert_eq!(Move::from_str(&t).unwrap(), Move::Regular(m));
        let s = ShortMove::from_move(Move::Regular(m));
        let st = text(|out| s.write_ascii(out));
        assert_eq!(ShortMove::from_str(&st).unwrap(), s);
    }
}

#[test]
fn setup_move_count() {
    // every arrangement of the 16 starting pieces: 16! / (8! 4! 2! 1! 1!)
    let mut it = setup_moves(Color::Red);
    let mut n: u64 = 0;
    while it.next().is_some() {
        n += 1;
    }
    assert_eq!(n, 10_810_800);
}

#[test]
fn short_moves_complete_back() {
    let mut p = after_setup();
    for ply in 0..30 {
        if p.stage() != Stage::Regular {
            break;
        }
        let all = movegen::pseudomoves(&p);
        for &m in &all {
            let s = ShortMove::from_move(Move::Regular(m));
            assert_eq!(any_move_from_short_move(&p, s).unwrap(), Move::Regular(m));
        }
        let legal = moves(&p);
        if legal.is_empty() {
            break;
        }
        p = p.make_regular_move(legal[(ply * 5) % legal.len()]).unwrap();
    }
}

fn gen_key(m: &RegularMove) -> usize {
    let mk = match m.from {
        Some(f) => f.index() * 64 + m.to.index(),
        None => m.to.index(),
    };
    m.colored_piece.piece().index() * 4096 + mk
}

fn part(m: &RegularMove) -> u8 {
    match (m.from, m.captured) {
        (Some(_), Some(_)) => 0,
        (Some(_), None) => 1,
        (None, _) => 2,
    }
}

fn assert_parts_in_key_order(v: &[RegularMove]) {
    for w in v.windows(2) {
        let (a, b) = (&w[0], &w[1]);
        assert!(part(a) <= part(b));
        if part(a) == part(b) {
            assert!(gen_key(a) < gen_key(b));
        }
    }
}

#[test]
fn generated_moves_in_key_order() {
    let mut p = after_setup();
    for ply in 0..40 {
        if p.stage() != Stage::Regular {
            break;
        }
        let ms = moves(&p);
        if !in_check(&p, p.to_move()) {
            assert_parts_in_key_order(&ms);
        }
        assert_parts_in_key_order(&movegen::pseudomoves(&p));
        let caps = captures(&p);
        for w in caps.windows(2) {
            assert!(gen_key(&w[0]) < gen_key(&w[1]));
        }
        if ms.is_empty() {
            break;
        }
        // prefer a capture, so that pieces come into hand and drops appear
        let next = caps.first().copied().unwrap_or(ms[ply % ms.len()]);
        p = p.make_regular_move(next).unwrap();
    }
}

#[test]
fn check_kinds_follow_the_target() {
    let mut p = after_setup();
    for ply in 0..30 {
        if p.stage() != Stage::Regular {
            break;
        }
        let w = p.wazir_square(p.to_move().opposite()).unwrap();
        let gives_check = |m: &RegularMove| move_bitboard(m.colored_piece.piece(), m.to).contains(w);
        let caps = captures(&p);
        let cap_checks = movegen::captures_checks(&p);
        let cap_non_checks = movegen::captures_non_checks(&p);
        for m in &caps {
            if m.colored_piece.piece() != Piece::Wazir {
                assert_eq!(cap_checks.contains(m), gives_check(m));
            }
            assert_eq!(cap_checks.contains(m) || cap_non_checks.contains(m), true);
            assert!(!(cap_checks.contains(m) && cap_non_checks.contains(m)));
        }
        for m in movegen::jumps(&p) {
            if m.colored_piece.piece() != Piece::Wazir {
                assert_eq!(movegen::jumps_checks(&p).contains(&m), gives_check(&m));
            }
        }
        for m in movegen::drops(&p) {
            assert_eq!(movegen::drops_checks(&p).contains(&m), gives_check(&m));
        }
        let ms = moves(&p);
        if ms.is_empty() {
            break;
        }
        let next = caps.first().copied().unwrap_or(ms[(ply * 7) % ms.len()]);
        p = p.make_regular_move(next).unwrap();
    }
}

#[test]
fn drop_onto_occupied_square_is_refused() {
    // play captures until a piece is in hand, then try dropping it onto an opponent piece
    let mut p = after_setup();
    for _ in 0..60 {
        if p.stage() != Stage::Regular {
            break;
        }
        let me = p.to_move();
        let held = [Piece::Alfil, Piece::Dabbaba, Piece::Ferz, Piece::Knight]
            .into_iter()
            .find(|&pc| p.num_captured(pc.with_color(me)) > 0);
        if let Some(pc) = held {
            let opp_square = (0..64)
                .map(Square::from_index)
                .find(|&sq| matches!(p.square(sq), Some(c) if c.color() != me && c.piece() != Piece::Wazir));
            if let Some(to) = opp_square {
                let victim = p.square(to).unwrap().piece();
                let m = RegularMove { colored_piece: pc.with_color(me), from: None, captured: Some(victim), to };
                assert!(p.make_regular_move(m).is_err());
                return;
            }
        }
        let ms = moves(&p);
        if ms.is_empty() {
            break;
        }
        let caps = captures(&p);
        let next = caps.first().copied().unwrap_or(ms[0]);
        p = p.make_regular_move(next).unwrap();
    }
    panic!("no position with a piece in hand was reached");
}

fn candidate_moves(p: &Position) -> Vec<RegularMove> {
    let me = p.to_move();
    let mut v = Vec::new();
    for to_i in 0..64 {
        let to = Square::from_index(to_i);
        let captured = p.square(to).map(|c| c.piece());
        for from_i in 0..64 {
            let from = Square::from_index(from_i);
            if let Some(cp) = p.square(from) {
                if cp.color() == me {
                    v.push(RegularMove { colored_piece: cp, from: Some(from), captured, to });
                }
            }
        }
        for pc in [Piece::Alfil, Piece::Dabbaba, Piece::Ferz, Piece::Knight, Piece::Wazir] {
            v.push(RegularMove { colored_piece: pc.with_color(me), from: None, captured, to });
        }
    }
    v
}

#[test]
fn pseudomoves_are_the_legal_moves() {
    let mut p = after_setup();
    for ply in 0..40 {
        if p.stage() != Stage::Regular {
            break;
        }
        let me = p.to_move();
        let pseudo = movegen::pseudomoves(&p);
        let ms = moves(&p);
        let checked = in_check(&p, me);
        for m in candidate_moves(&p) {
            let legal = p.make_regular_move(m);
            assert_eq!(legal.is_ok(), pseudo.contains(&m));
            if let Ok(q) = legal {
                let safe = !in_check(&q, me);
                if !checked {
                    assert_eq!(ms.contains(&m), safe);
                } else {
                    if safe {
                        assert!(ms.contains(&m));
                    }
                    if ms.contains(&m) && m.colored_piece.piece() != Piece::Wazir {
                        assert!(safe);
                    }
                }
            }
        }
        if ms.is_empty() {
            break;
        }
        let caps = captures(&p);
        let next = caps.first().copied().unwrap_or(ms[(ply * 5) % ms.len()]);
        p = p.make_regular_move(next).unwrap();
    }
}

#[test]
fn capture_kinds_partition_captures() {
    let mut p = after_setup();
    for ply in 0..30 {
        if p.stage() != Stage::Regular || in_check(&p, p.to_move()) {
            break;
        }
        let caps = captures(&p);
        let a = movegen::captures_checks(&p);
        let b = movegen::captures_check_threats(&p);
        let c = movegen::captures_boring(&p);
        for m in &caps {
            let n = [a.contains(m), b.contains(m), c.contains(m)].iter().filter(|x| **x).count();
            assert_eq!(n, 1);
        }
        assert_eq!(a.len() + b.len() + c.len(), caps.len());
        let js = movegen::jumps(&p);
        let ja = movegen::jumps_checks(&p);
        let jb = movegen::jumps_check_threats(&p);
        let jc = movegen::jumps_boring(&p);
        assert_eq!(ja.len() + jb.len() + jc.len(), js.len());
        for m in &js {
            assert!(ja.contains(m) || jb.contains(m) || jc.contains(m));
        }
        let ms = moves(&p);
        if ms.is_empty() {
            break;
        }
        let next = caps.first().copied().unwrap_or(ms[(ply * 3) % ms.len()]);
        p = p.make_regular_move(next).unwrap();
    }
}

#[test]
fn drop_kinds_partition_drops() {
    let mut p = after_setup();
    for ply in 0..40 {
        if p.stage() != Stage::Regular {
            break;
        }
        let ds = movegen::drops(&p);
        let a = movegen::drops_checks(&p);
        let b = movegen::drops_check_threats(&p);
        let c = movegen::drops_boring(&p);
        assert_eq!(a.len() + b.len() + c.len(), ds.len());
        for m in &ds {
            let n = [a.contains(m), b.contains(m), c.contains(m)].iter().filter(|x| **x).count();
            assert_eq!(n, 1);
        }
        let ms = moves(&p);
        if ms.is_empty() {
            break;
        }
        let caps = captures(&p);
        let next = caps.first().copied().unwrap_or(ms[(ply * 7) % ms.len()]);
        p = p.make_regular_move(next).unwrap();
    }
}

#[test]
fn double_moves_come_back_to_the_start() {
    for piece in [Piece::Alfil, Piece::Dabbaba, Piece::Ferz, Piece::Knight, Piece::Wazir] {
        for sq in [Square::A1, Square::H8, Square::D4, Square::A8, Square::E1] {
            assert!(movegen::double_move_bitboard(piece, sq).contains(sq));
        }
    }
}

#[test]
fn generated_moves_never_repeat() {
    let mut p = after_setup();
    for ply in 0..60 {
        if p.stage() != Stage::Regular {
            break;
        }
        let ms = moves(&p);
        for (i, m) in ms.iter().enumerate() {
            if m.captured != Some(Piece::Wazir) {
                assert!(!ms[i + 1..].contains(m));
            }
        }
        if ms.is_empty() {
            break;
        }
        let next = ms[(ply * 11) % ms.len()];
        p = p.make_regular_move(next).unwrap();
    }
}

#[test]
fn capturing_the_wazir_wins() {
    let mut p = after_setup();
    for ply in 0..200 {
        if p.stage() != Stage::Regular {
            break;
        }
        let me = p.to_move();
        let wins = movegen::captures_of_wazir(&p);
        if let Some(m) = wins.first() {
            assert_eq!(m.captured, Some(Piece::Wazir));
            let q = p.make_regular_move(*m).unwrap();
            assert_eq!(q.stage(), Stage::End(Outcome::win(me)));
            return;
        }
        // walk the wazir towards the opponent's one
        let target = p.wazir_square(me.opposite()).unwrap().index();
        let dist = |sq: Square| {
            let i = sq.index();
            ((i % 8) as i32 - (target % 8) as i32).abs() + ((i / 8) as i32 - (target / 8) as i32).abs()
        };
        let ms = movegen::pseudomoves(&p);
        if ms.is_empty() {
            break;
        }
        let wazir_moves: Vec<RegularMove> =
            ms.iter().copied().filter(|m| m.colored_piece.piece() == Piece::Wazir).collect();
        let next = match wazir_moves.iter().min_by_key(|m| dist(m.to)) {
            Some(m) => *m,
            None => ms[(ply * 13) % ms.len()],
        };
        p = p.make_regular_move(next).unwrap();
    }
    panic!("no capture of the wazir came up");
}
