use std::str::FromStr;
use wazir_drop::color::Color;
use wazir_drop::eval::{refresh, update, EvaluatedPosition};
use wazir_drop::linear_eval::LinearEvaluator;
use wazir_drop::moves::{Move, RegularMove};
use wazir_drop::piece::Piece;
use wazir_drop::movegen;
use wazir_drop::position::{Position, Stage};
use wazir_drop::square::Square;
use wazir_drop::symmetry::{NormalizedSquare, Symmetry};
use wazir_drop::wps_features::{WPSFeatures, WPS_COUNT};

fn after_setup() -> Position {
    let p = Position::initial();
    let p = p.make_move(Move::from_str("AAAAAAAADDDDFFNW").unwrap()).unwrap();
    p.make_move(Move::from_str("aaaaaaaaddddffnw").unwrap()).unwrap()
}

#[test]
fn feature_numbers() {
    assert_eq!(WPSFeatures.count(), 6360);
    assert_eq!(WPSFeatures::board_feature(NormalizedSquare::A1, false, Piece::Alfil, Square::A1), 0);
    assert_eq!(WPSFeatures::board_feature(NormalizedSquare::A2, true, Piece::Ferz, Square::B1), 636 + 6 * 64 + 8);
    assert_eq!(WPSFeatures::captured_feature(NormalizedSquare::D4, true, Piece::Dabbaba, 2), 9 * 636 + 576 + 30 + 16 + 2);
}

#[test]
fn all_features_after_setup() {
    let p = after_setup();
    let red = WPSFeatures.all(&p, Color::Red);
    // every piece but red's own wazir: 15 red pieces and 16 blue ones
    assert_eq!(red.len(), 31);
    assert!(red.iter().all(|&f| f < WPS_COUNT));
    let blue = WPSFeatures.all(&p, Color::Blue);
    assert_eq!(blue.len(), 31);
}

#[test]
fn no_features_without_wazir() {
    let p = Position::initial();
    assert!(WPSFeatures.all(&p, Color::Red).is_empty());
}

#[test]
fn regular_move_diff() {
    let p = after_setup();
    let m = RegularMove::from_str("Aa1-c3").unwrap();
    let q = p.make_regular_move(m).unwrap();
    let (added, removed) = WPSFeatures.diff_regular(m, &q, Color::Red).unwrap();
    assert_eq!(added.len(), 1);
    assert_eq!(removed.len(), 1);
    let before = WPSFeatures.all(&p, Color::Red);
    let after = WPSFeatures.all(&q, Color::Red);
    let mut expected: Vec<usize> = before.iter().copied().filter(|f| !removed.contains(f)).collect();
    expected.extend(added.iter().copied());
    expected.sort();
    let mut got = after.clone();
    got.sort();
    assert_eq!(got, expected);
    // the own wazir moving changes every feature
    let w = RegularMove::from_str("Wb8-c8").unwrap();
    assert!(WPSFeatures.diff_regular(w, &p, Color::Red).is_none());
}

#[test]
fn setup_diff_only_for_blue_seen_by_red() {
    let p = after_setup();
    let m = match Move::from_str("aaaaaaaaddddffnw").unwrap() {
        Move::Setup(m) => m,
        _ => panic!(),
    };
    let (added, removed) = WPSFeatures.diff_setup(m, &p, Color::Red).unwrap();
    assert_eq!(added.len(), 16);
    assert!(removed.is_empty());
    assert!(WPSFeatures.diff_setup(m, &p, Color::Blue).is_none());
}

#[test]
fn normalize_maps_to_normalized_square() {
    let (sym, ns) = Symmetry::normalize(Square::H8);
    assert_eq!(sym.apply(Square::H8), ns.to_square());
    assert_eq!(ns, NormalizedSquare::A1);
    let (sym, ns) = Symmetry::normalize(Square::A1);
    assert_eq!(sym, Symmetry::Identity);
    assert_eq!(ns, NormalizedSquare::A1);
}

#[test]
fn linear_evaluation() {
    let mut weights = vec![0i16; WPS_COUNT];
    weights[3] = 7;
    weights[5] = -2;
    let e = LinearEvaluator::new(WPSFeatures, 10, &weights);
    let mut red = e.new_accumulator();
    e.add_feature(&mut red, 3);
    e.add_feature(&mut red, 5);
    let mut blue = e.new_accumulator();
    e.add_feature(&mut blue, 3);
    e.remove_feature(&mut blue, 5);
    assert_eq!(red, 5);
    assert_eq!(blue, 9);
    assert_eq!(e.evaluate(&[red, blue], Color::Red), 5 - 9 + 10);
    assert_eq!(e.evaluate(&[red, blue], Color::Blue), 9 - 5 + 10);
}

fn sorted(mut v: Vec<usize>) -> Vec<usize> {
    v.sort();
    v
}

#[test]
fn regular_diffs_match_features_over_a_game() {
    let mut p = after_setup();
    let mut captures_seen = 0;
    let mut drops_seen = 0;
    for ply in 0..80 {
        if p.stage() != Stage::Regular {
            break;
        }
        let captures = movegen::captures(&p);
        let drops = movegen::drops(&p);
        let moves = movegen::moves(&p);
        let m = if ply % 3 != 2 && !captures.is_empty() && captures.iter().any(|c| c.captured != Some(Piece::Wazir)) {
            *captures.iter().find(|c| c.captured != Some(Piece::Wazir)).unwrap()
        } else if ply % 3 == 2 && !drops.is_empty() {
            drops[0]
        } else if !moves.is_empty() {
            moves[ply % moves.len()]
        } else {
            break;
        };
        if m.captured.is_some() {
            captures_seen += 1;
        }
        if m.from.is_none() {
            drops_seen += 1;
        }
        let q = p.make_regular_move(m).unwrap();
        for color in [Color::Red, Color::Blue] {
            if let Some((added, removed)) = WPSFeatures.diff_regular(m, &q, color) {
                let mut before = WPSFeatures.all(&p, color);
                before.extend(added.iter().copied());
                let mut after = WPSFeatures.all(&q, color);
                after.extend(removed.iter().copied());
                assert_eq!(sorted(before), sorted(after));
            }
        }
        p = q;
    }
    assert!(captures_seen > 0);
    assert!(drops_seen > 0);
}

#[test]
fn setup_diff_matches_features() {
    let p = Position::initial();
    let p = p.make_move(Move::from_str("AAAAAAAADDDDFFNW").unwrap()).unwrap();
    let m = match Move::from_str("dadfaaanaawdfaad").unwrap() {
        Move::Setup(m) => m,
        _ => panic!(),
    };
    let q = p.make_setup_move(m).unwrap();
    let (added, removed) = WPSFeatures.diff_setup(m, &q, Color::Red).unwrap();
    assert!(removed.is_empty());
    let mut before = WPSFeatures.all(&p, Color::Red);
    assert_eq!(before.len(), 15);
    before.extend(added.iter().copied());
    assert_eq!(sorted(before), sorted(WPSFeatures.all(&q, Color::Red)));
}

fn varied_weights() -> Vec<i16> {
    (0..WPS_COUNT).map(|i| ((i * 37) % 401) as i16 - 200).collect()
}

#[test]
fn evaluated_position_keeps_sums_over_a_game() {
    let weights = varied_weights();
    let e = LinearEvaluator::new(WPSFeatures, 25, &weights);
    let start = Position::initial();
    let mut ep = EvaluatedPosition::new(&e, start);
    ep = ep.make_any_move(Move::from_str("AAAAAAAADDDDFFNW").unwrap()).unwrap();
    ep = ep.make_any_move(Move::from_str("dadfaaanaawdfaad").unwrap()).unwrap();
    let fresh = EvaluatedPosition::new(&e, *ep.position());
    assert_eq!(ep.evaluate(), fresh.evaluate());
    let mut captures_seen = 0;
    for ply in 0..60 {
        let p = *ep.position();
        if p.stage() != Stage::Regular {
            break;
        }
        let captures = movegen::captures(&p);
        let moves = movegen::moves(&p);
        let m = match captures.iter().find(|c| c.captured != Some(Piece::Wazir)) {
            Some(c) if ply % 2 == 0 => *c,
            _ => {
                if moves.is_empty() {
                    break;
                }
                moves[(ply * 7) % moves.len()]
            }
        };
        if m.captured.is_some() {
            captures_seen += 1;
        }
        ep = ep.make_move(m).unwrap();
        let fresh = EvaluatedPosition::new(&e, *ep.position());
        assert_eq!(ep.evaluate(), fresh.evaluate());
        assert_eq!(refresh(&e, ep.position(), Color::Red) - refresh(&e, ep.position(), Color::Blue), {
            let sign = if ep.position().to_move() == Color::Red { 1 } else { -1 };
            sign * (ep.evaluate() - 25)
        });
    }
    assert!(captures_seen > 0);
}

#[test]
fn update_applies_a_diff() {
    let weights = varied_weights();
    let e = LinearEvaluator::new(WPSFeatures, 0, &weights);
    let p = after_setup();
    let acc = refresh(&e, &p, Color::Red);
    let m = RegularMove::from_str("Aa1-c3").unwrap();
    let q = p.make_regular_move(m).unwrap();
    let diff = WPSFeatures.diff_regular(m, &q, Color::Red);
    let (added, removed) = diff.clone().unwrap();
    let updated = update(&e, acc, &q, Color::Red, diff);
    let expected = acc - removed.iter().map(|&f| weights[f] as i32).sum::<i32>()
        + added.iter().map(|&f| weights[f] as i32).sum::<i32>();
    assert_eq!(updated, expected);
    assert_eq!(updated, refresh(&e, &q, Color::Red));
    assert_eq!(update(&e, 12345, &q, Color::Blue, None), refresh(&e, &q, Color::Blue));
}
