use std::str::FromStr;
use wazir_drop::clock::Timer;
use wazir_drop::history::History;
use wazir_drop::linear_eval::LinearEvaluator;
use wazir_drop::moves::Move;
use wazir_drop::player::{MainPlayerFactory, OpeningBook, Player, PlayerFactory, TimeAllocation};
use wazir_drop::position::{Position, Stage};
use wazir_drop::search::{Search, SearchParams};
use wazir_drop::wps_features::{WPSFeatures, WPS_COUNT};

fn params() -> SearchParams {
    SearchParams {
        min_depth_ttable: 200,
        late_move_reduction_start: 5,
        futility_margin: 800,
        contempt: 0,
        panic_eval_threshold: 100,
    }
}

fn after_setup() -> Position {
    let p = Position::initial();
    let p = p.make_move(Move::from_str("AAAAAAAADDDDFFNW").unwrap()).unwrap();
    p.make_move(Move::from_str("aaaaaaaaddddffnw").unwrap()).unwrap()
}

fn weights() -> Vec<i16> {
    // a little material: every feature is worth its index modulo 7
    (0..WPS_COUNT).map(|i| (i % 7) as i16).collect()
}

#[test]
fn search_returns_a_legal_line() {
    let w = weights();
    let evaluator = LinearEvaluator::new(WPSFeatures, 5, &w);
    let mut search = Search::new(&evaluator, params(), 1 << 16, 1 << 16);
    let mut p = after_setup();
    for _ in 0..6 {
        let history = History::new_from_position(&p);
        let result = search.search(&p, Some(300), None, None, true, &history);
        assert!(!result.pv.moves.as_slice().is_empty());
        // the principal variation plays legally from the position
        let mut q = p;
        for m in result.pv.moves.as_slice() {
            q = q.make_regular_move(*m).unwrap();
        }
        p = p.make_regular_move(result.pv.moves.as_slice()[0]).unwrap();
        if p.stage() != Stage::Regular {
            break;
        }
    }
}

#[test]
fn search_finds_the_wazir_capture() {
    // play until a side can take the opponent's wazir, then the search must take it
    let w = weights();
    let evaluator = LinearEvaluator::new(WPSFeatures, 0, &w);
    let mut search = Search::new(&evaluator, params(), 1 << 16, 1 << 16);
    let mut p = after_setup();
    for _ in 0..60 {
        if p.stage() != Stage::Regular {
            break;
        }
        let history = History::new_from_position(&p);
        let caps = wazir_drop::movegen::captures_of_wazir(&p);
        let result = search.search(&p, Some(100), None, None, false, &history);
        let m = result.pv.moves.as_slice()[0];
        if !caps.is_empty() {
            assert!(caps.contains(&m));
            return;
        }
        p = p.make_regular_move(m).unwrap();
    }
}

#[test]
fn main_player_plays_legal_moves() {
    let w = weights();
    let evaluator = LinearEvaluator::new(WPSFeatures, 0, &w);
    let time = TimeAllocation { per_ply: vec![[20_000, 16_000, 8_000, 40_000, 32_000]; 103], margin: 0 };
    let book = OpeningBook { red: None, blue_replies: Vec::new(), blue_candidates: Vec::new() };
    let factory = MainPlayerFactory::new(&evaluator, params(), 1 << 16, 1 << 16, book, time);
    let mut red = factory.create("", wazir_drop::color::Color::Red, &[], None);
    let mut blue = factory.create("", wazir_drop::color::Color::Blue, &[], None);
    let mut timer = Timer::new(2_000_000_000);
    timer.start();
    let mut p = Position::initial();
    for ply in 0..12 {
        let (me, other) = if ply % 2 == 0 { (&mut red, &mut blue) } else { (&mut blue, &mut red) };
        let m = me.make_move(&p, &timer);
        let q = p.make_move(m).unwrap();
        other.opponent_move(&q, m, &timer);
        p = q;
        if let Stage::End(_) = p.stage() {
            break;
        }
    }
    assert!(p.ply() >= 2);
}
