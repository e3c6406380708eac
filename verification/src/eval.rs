use crate::board::spec_count_piece;
use crate::color::Color;
use crate::linear_eval::LinearEvaluator;
use crate::moves::{InvalidMove, Move, RegularMove, SetupMove};
use crate::piece::{ColoredPiece, Piece};
use crate::captured::spec_total_count;
use crate::position::{
    lemma_no_captured_wazir, lemma_regular_step_valid, spec_has_wazir, spec_regular_legal,
    spec_regular_step, spec_setup_legal, spec_setup_result, spec_the_wazir, spec_to_move, spec_valid,
    spec_wazir, step_c1, step_c2, Outcome, Position, PositionView, Stage,
};
use crate::position_text::lemma_valid_captured_text;
use crate::symmetry::spec_normalized_index;
use crate::square::Square;
use crate::wps_diff::{
    features_in_range, lemma_all_features_bounds, lemma_count_witness, lemma_diff_regular_features,
    lemma_diff_setup_features,
};
use crate::wps_features::{ints, spec_all_features, spec_diff_regular, spec_diff_setup_added, WPS_COUNT};
use vstd::prelude::*;

verus! {

/// The sum of the weights of the features.
pub open spec fn weight_sum(ws: Seq<i16>, fs: Seq<int>) -> int
    decreases fs.len(),
{
    if fs.len() == 0 {
        0
    } else {
        weight_sum(ws, fs.drop_last()) + ws[fs.last()] as int
    }
}

proof fn lemma_weight_sum_bound(ws: Seq<i16>, fs: Seq<int>)
    ensures
        -32768 * fs.len() <= weight_sum(ws, fs) <= 32767 * fs.len(),
    decreases fs.len(),
{
    if fs.len() > 0 {
        lemma_weight_sum_bound(ws, fs.drop_last());
    }
}

proof fn lemma_weight_sum_concat(ws: Seq<i16>, a: Seq<int>, b: Seq<int>)
    ensures
        weight_sum(ws, a + b) == weight_sum(ws, a) + weight_sum(ws, b),
    decreases b.len(),
{
    if b.len() == 0 {
        assert(a + b =~= a);
    } else {
        lemma_weight_sum_concat(ws, a, b.drop_last());
        assert((a + b).drop_last() =~= a + b.drop_last());
    }
}

proof fn lemma_weight_sum_remove(ws: Seq<i16>, b: Seq<int>, i: int)
    requires
        0 <= i < b.len(),
    ensures
        weight_sum(ws, b) == weight_sum(ws, b.remove(i)) + ws[b[i]] as int,
    decreases b.len(),
{
    if i == b.len() - 1 {
        assert(b.remove(i) =~= b.drop_last());
    } else {
        lemma_weight_sum_remove(ws, b.drop_last(), i);
        assert(b.remove(i).drop_last() =~= b.drop_last().remove(i));
        assert(b.remove(i).last() == b.last());
    }
}

/// The sum of weights depends only on which features occur, and how often.
pub proof fn lemma_weight_sum_multiset(ws: Seq<i16>, a: Seq<int>, b: Seq<int>)
    requires
        a.to_multiset() == b.to_multiset(),
    ensures
        weight_sum(ws, a) == weight_sum(ws, b),
    decreases a.len(),
{
    broadcast use vstd::seq_lib::group_to_multiset_ensures;
    broadcast use vstd::multiset::group_multiset_axioms;

    if a.len() == 0 {
        assert(a.to_multiset().len() == a.len());
        assert(b.to_multiset().len() == b.len());
        assert(b.len() == 0);
        assert(b =~= a);
    } else {
        let x = a.last();
        assert(a.to_multiset().count(x) > 0) by {
            assert(a.contains(a[a.len() - 1]));
        }
        assert(b.contains(x));
        let i = choose|i: int| 0 <= i < b.len() && b[i] == x;
        let a2 = a.drop_last();
        let b2 = b.remove(i);
        assert(a =~= a2.push(x));
        assert(a2.to_multiset() =~= b2.to_multiset()) by {
            assert(a.to_multiset() =~= a2.to_multiset().insert(x));
            assert(b2.to_multiset() =~= b.to_multiset().remove(x));
        }
        lemma_weight_sum_multiset(ws, a2, b2);
        lemma_weight_sum_remove(ws, b, i);
    }
}

/// Updating a color's sum with what `diff_regular` reports gives the sum of the features
/// after the move.
pub proof fn lemma_update_regular(ws: Seq<i16>, s: PositionView, m: RegularMove, color: Color)
    requires
        spec_valid(s.0, s.1, s.2, s.3),
        spec_regular_step(s, m) is Some,
        spec_diff_regular(spec_regular_step(s, m)->Some_0, m, color) is Some,
    ensures
        ({
            let t = spec_regular_step(s, m)->Some_0;
            let d = spec_diff_regular(t, m, color)->Some_0;
            weight_sum(ws, spec_all_features(s, color)) - weight_sum(ws, d.1) + weight_sum(ws, d.0)
                == weight_sum(ws, spec_all_features(t, color))
        }),
{
    let t = spec_regular_step(s, m)->Some_0;
    let d = spec_diff_regular(t, m, color)->Some_0;
    lemma_diff_regular_features(s, m, color);
    lemma_weight_sum_multiset(ws, spec_all_features(s, color) + d.0, spec_all_features(t, color) + d.1);
    lemma_weight_sum_concat(ws, spec_all_features(s, color), d.0);
    lemma_weight_sum_concat(ws, spec_all_features(t, color), d.1);
}

/// Adding to red's sum what `diff_setup` reports for blue's setup gives the sum of red's
/// features after it.
pub proof fn lemma_update_setup(ws: Seq<i16>, s: PositionView, m: SetupMove)
    requires
        spec_valid(s.0, s.1, s.2, s.3),
        spec_setup_legal(s, m),
        m.color == Color::Blue,
    ensures
        ({
            let t = spec_setup_result(s, m);
            weight_sum(ws, spec_all_features(s, Color::Red)) + weight_sum(ws, spec_diff_setup_added(t, m, Color::Red))
                == weight_sum(ws, spec_all_features(t, Color::Red))
        }),
{
    let t = spec_setup_result(s, m);
    let added = spec_diff_setup_added(t, m, Color::Red);
    lemma_diff_setup_features(s, m);
    lemma_weight_sum_multiset(ws, spec_all_features(t, Color::Red), spec_all_features(s, Color::Red) + added);
    lemma_weight_sum_concat(ws, spec_all_features(s, Color::Red), added);
}

/// Adding and removing weights one at a time stays within `i32`: first the removed
/// features, then the added ones.
pub open spec fn update_fits(ws: Seq<i16>, accumulator: int, removed: Seq<int>, added: Seq<int>) -> bool {
    &&& forall|k: int| 0 <= k < removed.len() ==> 0 <= #[trigger] removed[k] < ws.len()
    &&& forall|k: int| 0 <= k < added.len() ==> 0 <= #[trigger] added[k] < ws.len()
    &&& forall|k: int|
        0 <= k <= removed.len() ==> i32::MIN <= accumulator - #[trigger] weight_sum(ws, removed.take(k)) <= i32::MAX
    &&& forall|k: int|
        0 <= k <= added.len() ==> i32::MIN <= accumulator - weight_sum(ws, removed) + #[trigger] weight_sum(
            ws,
            added.take(k),
        ) <= i32::MAX
}

/// The sum of the weights of the position's features for `color`, from scratch.
pub fn refresh(evaluator: &LinearEvaluator, position: &Position, color: Color) -> (r: i32)
    requires
        evaluator.weights().len() == WPS_COUNT,
    ensures
        r == weight_sum(evaluator.weights(), spec_all_features(position@, color)),
{
    let ws = Ghost(evaluator.weights());
    position.check_valid();
    proof {
        lemma_all_features_bounds(position@, color);
    }
    let features = evaluator.features().all(position, color);
    let mut accumulator = evaluator.new_accumulator();
    let mut i: usize = 0;
    while i < features.len()
        invariant
            i <= features@.len(),
            ints(features@) == spec_all_features(position@, color),
            features@.len() <= 720,
            features_in_range(ints(features@)),
            evaluator.weights().len() == WPS_COUNT,
            ws@ == evaluator.weights(),
            accumulator == weight_sum(ws@, ints(features@).take(i as int)),
        decreases features@.len() - i,
    {
        let ghost fs = ints(features@);
        proof {
            assert(fs[i as int] == features@[i as int]);
            assert(fs.take(i + 1).drop_last() =~= fs.take(i as int));
            lemma_weight_sum_bound(ws@, fs.take(i as int));
        }
        evaluator.add_feature(&mut accumulator, features[i]);
        i = i + 1;
    }
    proof {
        assert(ints(features@).take(features@.len() as int) =~= ints(features@));
    }
    accumulator
}

/// A color's sum after a move: the weights of the removed features taken off and those of
/// the added ones put on, or the sum from scratch when there is no list of changes.
pub fn update(
    evaluator: &LinearEvaluator,
    accumulator: i32,
    new_position: &Position,
    color: Color,
    diff: Option<(Vec<usize>, Vec<usize>)>,
) -> (r: i32)
    requires
        evaluator.weights().len() == WPS_COUNT,
        diff matches Some((added, removed)) ==> update_fits(
            evaluator.weights(),
            accumulator as int,
            ints(removed@),
            ints(added@),
        ),
    ensures
        match diff {
            Some((added, removed)) => r == accumulator - weight_sum(evaluator.weights(), ints(removed@))
                + weight_sum(evaluator.weights(), ints(added@)),
            None => r == weight_sum(evaluator.weights(), spec_all_features(new_position@, color)),
        },
{
    let ghost ws = evaluator.weights();
    match diff {
        None => refresh(evaluator, new_position, color),
        Some((added, removed)) => {
            let ghost rm = ints(removed@);
            let ghost ad = ints(added@);
            let mut acc = accumulator;
            let mut i: usize = 0;
            while i < removed.len()
                invariant
                    i <= removed@.len(),
                    rm == ints(removed@),
                    update_fits(ws, accumulator as int, rm, ad),
                    ws == evaluator.weights(),
                    acc == accumulator - weight_sum(ws, rm.take(i as int)),
                decreases removed@.len() - i,
            {
                proof {
                    assert(rm[i as int] == removed@[i as int]);
                    assert(rm.take(i + 1).drop_last() =~= rm.take(i as int));
                    assert(i32::MIN <= accumulator - weight_sum(ws, rm.take(i + 1)) <= i32::MAX);
                }
                evaluator.remove_feature(&mut acc, removed[i]);
                i = i + 1;
            }
            proof {
                assert(rm.take(removed@.len() as int) =~= rm);
            }
            let mut j: usize = 0;
            while j < added.len()
                invariant
                    j <= added@.len(),
                    ad == ints(added@),
                    update_fits(ws, accumulator as int, rm, ad),
                    ws == evaluator.weights(),
                    acc == accumulator - weight_sum(ws, rm) + weight_sum(ws, ad.take(j as int)),
                decreases added@.len() - j,
            {
                proof {
                    assert(ad[j as int] == added@[j as int]);
                    assert(ad.take(j + 1).drop_last() =~= ad.take(j as int));
                    assert(i32::MIN <= accumulator - weight_sum(ws, rm) + weight_sum(ws, ad.take(j + 1))
                        <= i32::MAX);
                }
                evaluator.add_feature(&mut acc, added[j]);
                j = j + 1;
            }
            proof {
                assert(ad.take(added@.len() as int) =~= ad);
            }
            acc
        },
    }
}

/// In a valid position after a regular move, the wazir of each color whose features
/// `diff_regular` lists is on the board, and a captured piece other than a wazir sits in
/// the mover's hand.
proof fn lemma_regular_diff_ready(s: PositionView, m: RegularMove, t: PositionView, color: Color)
    requires
        spec_valid(s.0, s.1, s.2, s.3),
        spec_regular_step(s, m) == Some(t),
        spec_valid(t.0, t.1, t.2, t.3),
    ensures
        !(m.colored_piece == ColoredPiece::spec_new(Piece::Wazir, color) || (m.colored_piece.spec_color()
            != color && m.captured == Some(Piece::Wazir))) ==> spec_has_wazir(t, color),
        (m.captured matches Some(p) && p != Piece::Wazir && t.3[ColoredPiece::spec_new(
            p,
            m.colored_piece.spec_color(),
        ).spec_index() as int] == 0) ==> m.colored_piece == ColoredPiece::spec_new(Piece::Wazir, color),
{
    let me = spec_to_move(s.1);
    assert(spec_regular_legal(s, m));
    assert(m.colored_piece.spec_color() == me);
    assert(t.3 == step_c2(s, m));
    if let Some(p) = m.captured {
        let hc = ColoredPiece::spec_new(p, me);
        assert(t.3[hc.spec_index() as int] == step_c1(s, m)[hc.spec_index() as int] + 1);
    }
    if !(m.colored_piece == ColoredPiece::spec_new(Piece::Wazir, color) || (m.colored_piece.spec_color() != color
        && m.captured == Some(Piece::Wazir))) {
        let own = spec_wazir(color);
        assert(spec_count_piece(t.2, own) == 1) by {
            if m.captured == Some(Piece::Wazir) {
                assert(color == me);
                assert(spec_to_move(t.1) == me.spec_opposite());
                assert(me.spec_opposite().spec_opposite() == me);
            }
        }
        lemma_count_witness(t.2, own, 64);
        let k = choose|k: int| 0 <= k < 64 && t.2[k] == Some(own);
        let w = Square::spec_from_index(k);
        assert(w.spec_index() == k);
    }
}

/// After blue's setup red's wazir is on the board.
proof fn lemma_red_wazir_present(t: PositionView)
    requires
        spec_valid(t.0, t.1, t.2, t.3),
        t.0 == Stage::Regular,
    ensures
        spec_has_wazir(t, Color::Red),
{
    let own = spec_wazir(Color::Red);
    assert(spec_count_piece(t.2, own) == 1);
    lemma_count_witness(t.2, own, 64);
    let k = choose|k: int| 0 <= k < 64 && t.2[k] == Some(own);
    assert(Square::spec_from_index(k).spec_index() == k);
}

/// The sums of both colors being right makes the position consistent.
proof fn lemma_consistent_both(e: EvaluatedPosition)
    requires
        e.accumulator(Color::Red) == weight_sum(e.weights(), spec_all_features(e.pos(), Color::Red)),
        e.accumulator(Color::Blue) == weight_sum(e.weights(), spec_all_features(e.pos(), Color::Blue)),
    ensures
        e.consistent(),
{
    assert forall|c: Color| #[trigger] e.accumulator(c) == weight_sum(e.weights(), spec_all_features(e.pos(), c)) by {
        match c {
            Color::Red => {},
            Color::Blue => {},
        }
    }
}

proof fn lemma_fits_small(ws: Seq<i16>, acc: int, removed: Seq<int>, added: Seq<int>)
    requires
        ws.len() == WPS_COUNT,
        -30_000_000 <= acc <= 30_000_000,
        removed.len() <= 16,
        added.len() <= 16,
        features_in_range(removed),
        features_in_range(added),
    ensures
        update_fits(ws, acc, removed, added),
{
    lemma_weight_sum_bound(ws, removed);
    assert forall|k: int| 0 <= k <= removed.len() implies i32::MIN <= acc - #[trigger] weight_sum(ws, removed.take(k))
        <= i32::MAX by {
        lemma_weight_sum_bound(ws, removed.take(k));
    }
    assert forall|k: int| 0 <= k <= added.len() implies i32::MIN <= acc - weight_sum(ws, removed) + #[trigger] weight_sum(
        ws,
        added.take(k),
    ) <= i32::MAX by {
        lemma_weight_sum_bound(ws, added.take(k));
    }
}

/// The changes `diff_regular` reports are features.
#[verifier::rlimit(40)]
#[verifier::spinoff_prover]
proof fn lemma_diff_regular_in_range(s: PositionView, m: RegularMove, color: Color)
    requires
        spec_valid(s.0, s.1, s.2, s.3),
        spec_regular_step(s, m) is Some,
        spec_diff_regular(spec_regular_step(s, m)->Some_0, m, color) is Some,
    ensures
        ({
            let d = spec_diff_regular(spec_regular_step(s, m)->Some_0, m, color)->Some_0;
            d.0.len() <= 2 && d.1.len() <= 2 && features_in_range(d.0) && features_in_range(d.1)
        }),
{
    let t = spec_regular_step(s, m)->Some_0;
    let d = spec_diff_regular(t, m, color)->Some_0;
    let me = spec_to_move(s.1);
    let cp = m.colored_piece;
    assert(spec_regular_legal(s, m));
    assert(t.3 == step_c2(s, m));
    lemma_regular_step_valid(s, m);
    lemma_valid_captured_text(s);
    lemma_valid_captured_text(t);
    let w = spec_the_wazir(t, color);
    let wn = spec_normalized_index(w);
    assert(wn * 636 <= 5724) by (nonlinear_arith)
        requires
            wn < 10,
    ;
    if m.from is None {
        lemma_no_captured_wazir(s);
        assert(cp.spec_piece() != Piece::Wazir) by {
            if cp.spec_piece() == Piece::Wazir {
                assert(cp == spec_wazir(me));
            }
        }
        let n = s.3[cp.spec_index() as int];
        assert(n <= spec_total_count(cp.spec_piece()));
        assert(step_c1(s, m)[cp.spec_index() as int] == n - 1);
        if let Some(c) = m.captured {
            let hc = ColoredPiece::spec_new(c, me);
            assert(hc != cp);
            assert(hc.spec_index() != cp.spec_index());
        }
        assert(t.3[cp.spec_index() as int] == n - 1);
    }
    if let Some(c) = m.captured {
        if c != Piece::Wazir {
            let hc = ColoredPiece::spec_new(c, me);
            assert(t.3[hc.spec_index() as int] <= spec_total_count(c));
            assert(t.3[hc.spec_index() as int] >= 1);
        }
    }
    assert(features_in_range(d.0));
    assert(features_in_range(d.1));
}

/// The features a blue setup adds for red are features.
proof fn lemma_setup_added_in_range(t: PositionView, m: SetupMove)
    ensures
        spec_diff_setup_added(t, m, Color::Red).len() == 16,
        features_in_range(spec_diff_setup_added(t, m, Color::Red)),
{
    let added = spec_diff_setup_added(t, m, Color::Red);
    let wn = spec_normalized_index(spec_the_wazir(t, Color::Red));
    assert(wn * 636 <= 5724) by (nonlinear_arith)
        requires
            wn < 10,
    ;
    assert forall|i: int| 0 <= i < added.len() implies 0 <= #[trigger] added[i] < 6360 by {
        broadcast use crate::square::group_square;
        assert(m.pieces@[i].spec_index() <= 4);
    }
}

/// A position with the weighted sums of both colors' features, updated move by move.
pub struct EvaluatedPosition<'a> {
    evaluator: &'a LinearEvaluator,
    position: Position,
    accumulators: [i32; 2],
}

impl<'a> EvaluatedPosition<'a> {
    /// The weights of the evaluator.
    pub closed spec fn weights(self) -> Seq<i16> {
        self.evaluator.weights()
    }

    /// The bonus of the side to move.
    pub closed spec fn to_move_weight(self) -> i16 {
        self.evaluator.to_move_weight()
    }

    /// The position.
    pub closed spec fn pos(self) -> PositionView {
        self.position@
    }

    /// The sum kept for `color`.
    pub closed spec fn accumulator(self, color: Color) -> int {
        self.accumulators@[color.spec_index() as int] as int
    }

    /// The evaluator has one weight per feature, and the position is valid.
    pub closed spec fn wf(self) -> bool {
        &&& self.evaluator.weights().len() == WPS_COUNT
        &&& spec_valid(self.position@.0, self.position@.1, self.position@.2, self.position@.3)
    }

    /// The sums are those of the position's features.
    pub open spec fn consistent(self) -> bool {
        forall|c: Color| #[trigger] self.accumulator(c) == weight_sum(self.weights(), spec_all_features(self.pos(), c))
    }

    /// The position with its sums computed from scratch.
    pub fn new(evaluator: &'a LinearEvaluator, position: Position) -> (r: EvaluatedPosition<'a>)
        requires
            evaluator.weights().len() == WPS_COUNT,
        ensures
            r.wf(),
            r.pos() == position@,
            r.weights() == evaluator.weights(),
            r.to_move_weight() == evaluator.to_move_weight(),
            r.consistent(),
    {
        position.check_valid();
        let red = refresh(evaluator, &position, Color::Red);
        let blue = refresh(evaluator, &position, Color::Blue);
        let r = EvaluatedPosition { evaluator, position, accumulators: [red, blue] };
        assert forall|c: Color| #[trigger] r.accumulator(c) == weight_sum(r.weights(), spec_all_features(r.pos(), c)) by {
            match c {
                Color::Red => {},
                Color::Blue => {},
            }
        }
        r
    }

    /// The position.
    pub fn position(&self) -> (r: &Position)
        ensures
            r@ == self.pos(),
    {
        &self.position
    }

    /// Plays a regular move: each color's sum is updated with what `diff_regular`
    /// reports, or computed anew when it reports nothing. With sums that were those of
    /// the position, they stay so.
    pub fn make_move(&self, mov: RegularMove) -> (r: Result<EvaluatedPosition<'a>, InvalidMove>)
        requires
            self.wf(),
            spec_regular_step(self.pos(), mov) matches Some(t) ==> forall|c: Color|
                #[trigger] spec_diff_regular(t, mov, c) matches Some(d) ==> update_fits(
                    self.weights(),
                    self.accumulator(c),
                    d.1,
                    d.0,
                ),
        ensures
            r is Ok <==> spec_regular_step(self.pos(), mov) is Some,
            r matches Ok(e) ==> {
                let t = spec_regular_step(self.pos(), mov)->Some_0;
                &&& e.wf()
                &&& e.pos() == t
                &&& e.weights() == self.weights()
                &&& e.to_move_weight() == self.to_move_weight()
                &&& forall|c: Color|
                    #[trigger] e.accumulator(c) == match spec_diff_regular(t, mov, c) {
                        Some(d) => self.accumulator(c) - weight_sum(self.weights(), d.1) + weight_sum(
                            self.weights(),
                            d.0,
                        ),
                        None => weight_sum(self.weights(), spec_all_features(t, c)),
                    }
                &&& self.consistent() ==> e.consistent()
            },
    {
        let position = match self.position.make_regular_move(mov) {
            Ok(p) => p,
            Err(e) => {
                return Err(e);
            },
        };
        self.position.check_valid();
        position.check_valid();
        let ghost t = position@;
        proof {
            lemma_regular_diff_ready(self.pos(), mov, t, Color::Red);
            lemma_regular_diff_ready(self.pos(), mov, t, Color::Blue);
        }
        let features = self.evaluator.features();
        let red_diff = features.diff_regular(mov, &position, Color::Red);
        let blue_diff = features.diff_regular(mov, &position, Color::Blue);
        proof {
            let _ = spec_diff_regular(t, mov, Color::Red);
            let _ = spec_diff_regular(t, mov, Color::Blue);
        }
        let red = update(self.evaluator, self.accumulators[0], &position, Color::Red, red_diff);
        let blue = update(self.evaluator, self.accumulators[1], &position, Color::Blue, blue_diff);
        let e = EvaluatedPosition { evaluator: self.evaluator, position, accumulators: [red, blue] };
        proof {
            assert forall|c: Color|
                #[trigger] e.accumulator(c) == match spec_diff_regular(t, mov, c) {
                    Some(d) => self.accumulator(c) - weight_sum(self.weights(), d.1) + weight_sum(self.weights(), d.0),
                    None => weight_sum(self.weights(), spec_all_features(t, c)),
                } by {
                match c {
                    Color::Red => {},
                    Color::Blue => {},
                }
            }
            if self.consistent() {
                assert forall|c: Color| #[trigger] e.accumulator(c) == weight_sum(e.weights(), spec_all_features(e.pos(), c)) by {
                    if spec_diff_regular(t, mov, c) is Some {
                        lemma_update_regular(self.weights(), self.pos(), mov, c);
                    }
                }
            }
        }
        Ok(e)
    }

    /// Plays a setup move: after blue's setup red's sum gains the features of the blue
    /// pieces; every other sum is computed anew. With sums that were those of the
    /// position, they stay so.
    pub fn make_setup_move(&self, mov: SetupMove) -> (r: Result<EvaluatedPosition<'a>, InvalidMove>)
        requires
            self.wf(),
            spec_setup_legal(self.pos(), mov) && mov.color == Color::Blue ==> update_fits(
                self.weights(),
                self.accumulator(Color::Red),
                Seq::empty(),
                spec_diff_setup_added(spec_setup_result(self.pos(), mov), mov, Color::Red),
            ),
        ensures
            r is Ok <==> spec_setup_legal(self.pos(), mov),
            r matches Ok(e) ==> {
                let t = spec_setup_result(self.pos(), mov);
                &&& e.wf()
                &&& e.pos() == t
                &&& e.weights() == self.weights()
                &&& e.to_move_weight() == self.to_move_weight()
                &&& e.accumulator(Color::Red) == if mov.color == Color::Blue {
                    self.accumulator(Color::Red) + weight_sum(
                        self.weights(),
                        spec_diff_setup_added(t, mov, Color::Red),
                    )
                } else {
                    weight_sum(self.weights(), spec_all_features(t, Color::Red))
                }
                &&& e.accumulator(Color::Blue) == weight_sum(self.weights(), spec_all_features(t, Color::Blue))
                &&& self.consistent() ==> e.consistent()
            },
    {
        let position = match self.position.make_setup_move(mov) {
            Ok(p) => p,
            Err(e) => {
                return Err(e);
            },
        };
        self.position.check_valid();
        position.check_valid();
        let ghost t = position@;
        proof {
            if mov.color == Color::Blue {
                lemma_red_wazir_present(t);
            }
        }
        let features = self.evaluator.features();
        let red_diff = features.diff_setup(mov, &position, Color::Red);
        let blue_diff = features.diff_setup(mov, &position, Color::Blue);
        proof {
            if red_diff is Some {
                assert(ints(red_diff->Some_0.1@) =~= Seq::<int>::empty());
                assert(Seq::<int>::empty().take(0) =~= Seq::<int>::empty());
            }
        }
        let red = update(self.evaluator, self.accumulators[0], &position, Color::Red, red_diff);
        let blue = update(self.evaluator, self.accumulators[1], &position, Color::Blue, blue_diff);
        let e = EvaluatedPosition { evaluator: self.evaluator, position, accumulators: [red, blue] };
        proof {
            if self.consistent() {
                assert(e.accumulator(Color::Red) == weight_sum(e.weights(), spec_all_features(e.pos(), Color::Red))) by {
                    if mov.color == Color::Blue {
                        lemma_update_setup(self.weights(), self.pos(), mov);
                    }
                }
                assert(e.accumulator(Color::Blue) == weight_sum(e.weights(), spec_all_features(e.pos(), Color::Blue)));
                lemma_consistent_both(e);
            }
        }
        Ok(e)
    }

    /// Plays a setup or regular move.
    pub fn make_any_move(&self, mov: Move) -> (r: Result<EvaluatedPosition<'a>, InvalidMove>)
        requires
            self.wf(),
            mov matches Move::Setup(m) ==> (spec_setup_legal(self.pos(), m) && m.color == Color::Blue ==> update_fits(
                self.weights(),
                self.accumulator(Color::Red),
                Seq::empty(),
                spec_diff_setup_added(spec_setup_result(self.pos(), m), m, Color::Red),
            )),
            mov matches Move::Regular(m) ==> (spec_regular_step(self.pos(), m) matches Some(t) ==> forall|c: Color|
                #[trigger] spec_diff_regular(t, m, c) matches Some(d) ==> update_fits(
                    self.weights(),
                    self.accumulator(c),
                    d.1,
                    d.0,
                )),
        ensures
            match mov {
                Move::Setup(m) => (r is Ok <==> spec_setup_legal(self.pos(), m)) && (r matches Ok(e) ==> e.wf()
                    && e.pos() == spec_setup_result(self.pos(), m) && (self.consistent() ==> e.consistent())),
                Move::Regular(m) => (r is Ok <==> spec_regular_step(self.pos(), m) is Some) && (r matches Ok(e) ==> e.wf()
                    && e.pos() == spec_regular_step(self.pos(), m)->Some_0 && (self.consistent() ==> e.consistent())),
            },
    {
        match mov {
            Move::Setup(m) => self.make_setup_move(m),
            Move::Regular(m) => self.make_move(m),
        }
    }

    /// A position whose sums are right can make any legal regular move: the sums stay
    /// within `i32` on the way.
    pub proof fn lemma_make_move_fits(self, mov: RegularMove)
        requires
            self.wf(),
            self.consistent(),
        ensures
            spec_regular_step(self.pos(), mov) matches Some(t) ==> forall|c: Color|
                #[trigger] spec_diff_regular(t, mov, c) matches Some(d) ==> update_fits(
                    self.weights(),
                    self.accumulator(c),
                    d.1,
                    d.0,
                ),
    {
        if let Some(t) = spec_regular_step(self.pos(), mov) {
            assert forall|c: Color| #[trigger] spec_diff_regular(t, mov, c) is Some implies update_fits(
                self.weights(),
                self.accumulator(c),
                spec_diff_regular(t, mov, c)->Some_0.1,
                spec_diff_regular(t, mov, c)->Some_0.0,
            ) by {
                let d = spec_diff_regular(t, mov, c)->Some_0;
                lemma_diff_regular_in_range(self.pos(), mov, c);
                lemma_all_features_bounds(self.pos(), c);
                lemma_weight_sum_bound(self.weights(), spec_all_features(self.pos(), c));
                lemma_fits_small(self.weights(), self.accumulator(c), d.1, d.0);
            }
        }
    }

    /// A position whose sums are right can make any setup move: red's sum stays within
    /// `i32` on the way.
    pub proof fn lemma_make_setup_move_fits(self, mov: SetupMove)
        requires
            self.wf(),
            self.consistent(),
        ensures
            spec_setup_legal(self.pos(), mov) && mov.color == Color::Blue ==> update_fits(
                self.weights(),
                self.accumulator(Color::Red),
                Seq::empty(),
                spec_diff_setup_added(spec_setup_result(self.pos(), mov), mov, Color::Red),
            ),
    {
        if spec_setup_legal(self.pos(), mov) && mov.color == Color::Blue {
            let t = spec_setup_result(self.pos(), mov);
            let added = spec_diff_setup_added(t, mov, Color::Red);
            lemma_setup_added_in_range(t, mov);
            lemma_all_features_bounds(self.pos(), Color::Red);
            lemma_weight_sum_bound(self.weights(), spec_all_features(self.pos(), Color::Red));
            lemma_fits_small(self.weights(), self.accumulator(Color::Red), Seq::empty(), added);
        }
    }

    /// The position of a well-formed evaluated position is valid.
    pub proof fn lemma_wf_valid(self)
        requires
            self.wf(),
        ensures
            spec_valid(self.pos().0, self.pos().1, self.pos().2, self.pos().3),
    {
    }

    /// A position whose sums are right has sums of at most 720 weights each, so its
    /// evaluation fits in an `i32` with room to spare.
    pub proof fn lemma_evaluate_fits(self)
        requires
            self.wf(),
            self.consistent(),
        ensures
            forall|c: Color| -23592960 <= #[trigger] self.accumulator(c) <= 23592960,
            -47219688 <= self.accumulator(spec_to_move(self.pos().1)) - self.accumulator(
                spec_to_move(self.pos().1).spec_opposite(),
            ) + self.to_move_weight() <= 47219688,
    {
        assert forall|c: Color| -23592960 <= #[trigger] self.accumulator(c) <= 23592960 by {
            let fs = spec_all_features(self.pos(), c);
            lemma_all_features_bounds(self.pos(), c);
            lemma_weight_sum_bound(self.weights(), fs);
            assert(32767 * fs.len() <= 32767 * 720) by (nonlinear_arith)
                requires
                    fs.len() <= 720,
            ;
            assert(-32768 * fs.len() >= -32768 * 720) by (nonlinear_arith)
                requires
                    fs.len() <= 720,
            ;
        }
        let me = spec_to_move(self.pos().1);
        assert(-23592960 <= self.accumulator(me) <= 23592960);
        assert(-23592960 <= self.accumulator(me.spec_opposite()) <= 23592960);
    }

    /// The evaluation for the side to move: its sum, less the other's, plus the bonus.
    pub fn evaluate(&self) -> (r: i32)
        requires
            i32::MIN <= self.accumulator(spec_to_move(self.pos().1)) - self.accumulator(
                spec_to_move(self.pos().1).spec_opposite(),
            ) + self.to_move_weight() <= i32::MAX,
        ensures
            r == self.accumulator(spec_to_move(self.pos().1)) - self.accumulator(
                spec_to_move(self.pos().1).spec_opposite(),
            ) + self.to_move_weight(),
    {
        self.evaluator.evaluate(&self.accumulators, self.position.to_move())
    }
}

} // verus!
