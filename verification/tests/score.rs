use wazir_drop::score::{Score, ScoreExpanded};

fn text(s: Score) -> String {
    let mut out = Vec::new();
    s.write_ascii(&mut out);
    String::from_utf8(out).unwrap()
}

#[test]
fn score_expand_and_pack() {
    assert_eq!(ScoreExpanded::from_score(Score(1000000000)), ScoreExpanded::Win(0));
    assert_eq!(ScoreExpanded::from_score(Score(999999995)), ScoreExpanded::Win(5));
    assert_eq!(ScoreExpanded::from_score(Score(-999999997)), ScoreExpanded::Loss(3));
    assert_eq!(ScoreExpanded::from_score(Score(42)), ScoreExpanded::Eval(42));
    assert_eq!(Score::from_expanded(ScoreExpanded::Win(5)), Score(999999995));
    assert_eq!(Score::from_expanded(ScoreExpanded::Loss(3)), Score(-999999997));
    for v in [-1000000000, -999999745, -999999744, -1, 0, 7, 999999744, 999999745, 1000000000] {
        assert_eq!(Score::from_expanded(ScoreExpanded::from_score(Score(v))), Score(v));
    }
}

#[test]
fn score_from_eval_clamps() {
    assert_eq!(Score::from_eval(100), Score(100));
    assert_eq!(Score::from_eval(2000000000), Score(999999744));
    assert_eq!(Score::from_eval(-2000000000), Score(-999999744));
}

#[test]
fn score_next_prev_neg() {
    assert_eq!(Score(5).next(), Score(6));
    assert_eq!(Score::infinite().next(), Score::infinite());
    assert_eq!(Score(-1000000000).prev(), Score(-1000000000));
    assert_eq!(Score(5).prev(), Score(4));
    assert_eq!(Score(5).neg(), Score(-5));
    assert_eq!(Score::draw(), Score(0));
}

#[test]
fn score_relative_absolute() {
    let win_in_7 = Score::from_expanded(ScoreExpanded::Win(7));
    assert_eq!(win_in_7.to_relative(3), Score::from_expanded(ScoreExpanded::Win(4)));
    assert_eq!(win_in_7.to_relative(9), Score::from_expanded(ScoreExpanded::Win(0)));
    assert_eq!(win_in_7.to_absolute(3), Score::from_expanded(ScoreExpanded::Win(10)));
    assert_eq!(Score(12).to_relative(3), Score(12));
    assert_eq!(ScoreExpanded::Loss(250).to_absolute(10), ScoreExpanded::Loss(255));
    assert_eq!(Score(12).offset(-20), Score(-8));
    assert_eq!(ScoreExpanded::Eval(i32::MAX).offset(1), ScoreExpanded::Eval(i32::MAX));
    assert_eq!(win_in_7.offset(100), win_in_7);
}

#[test]
fn score_text() {
    assert_eq!(text(Score(999999995)), "#5");
    assert_eq!(text(Score(-999999997)), "-#3");
    assert_eq!(text(Score(-17)), "-17");
    assert_eq!(text(Score(100)), "100");
}

#[test]
fn score_relative_then_absolute_round_trips() {
    for v in [-1000000000, -999999990, -5, 0, 17, 999999990, 1000000000] {
        let s = Score(v);
        for ply in [0u8, 3, 10] {
            let keep = match ScoreExpanded::from_score(s) {
                ScoreExpanded::Win(p) | ScoreExpanded::Loss(p) => p >= ply,
                ScoreExpanded::Eval(_) => true,
            };
            if keep {
                assert_eq!(s.to_relative(ply).to_absolute(ply), s);
            }
        }
    }
    let win_in_2 = Score::from_expanded(ScoreExpanded::Win(2));
    assert_ne!(win_in_2.to_relative(5).to_absolute(5), win_in_2);
}
