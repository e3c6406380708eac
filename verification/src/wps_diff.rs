use crate::bitboard::{
    lemma_sorted_insert_multiset, lemma_sorted_listing_exists, lemma_sorted_listing_len,
    lemma_sorted_listing_unique, sorted_squares_of,
};
use crate::captured::{spec_captured_offset, spec_total_count};
use crate::position_text::lemma_valid_captured_text;
use crate::board::spec_piece_set;
use crate::color::Color;
use crate::piece::{group_piece, ColoredPiece, Piece};
use crate::board::{count_piece_below, spec_count_piece};
use crate::moves::RegularMove;
use crate::moves::SetupMove;
use crate::position::{
    lemma_no_captured_wazir, lemma_setup_square_empty, lemma_valid_setup_piece, lemma_wazir_unique,
    spec_in_setup_range, spec_regular_legal, spec_regular_step, spec_setup_board, spec_setup_legal,
    spec_setup_result, spec_setup_square, spec_the_wazir, spec_to_move, spec_valid, spec_wazir,
    step_b1, step_b2, step_b3, step_c1, step_c2, PositionView, Stage,
};
use crate::square::{group_square, lemma_square_index_injective, Square};
use crate::symmetry::{spec_apply, spec_apply_index, spec_normalize_sym, spec_normalized_index, Symmetry};
use crate::wps_features::{
    spec_all_features, spec_board_feature, spec_captured_feature, spec_diff_regular, spec_diff_setup_added,
    spec_features_for, spec_piece_features, spec_wazir_features,
};
use vstd::multiset::Multiset;
use vstd::prelude::*;

verus! {

broadcast use {group_square, group_piece};

/// The features of the pieces of one kind and color, as a multiset.
pub open spec fn piece_ms(
    s: PositionView,
    sym: Symmetry,
    wn: nat,
    other: bool,
    oc: Color,
    piece: Piece,
) -> Multiset<int> {
    spec_piece_features(s, sym, wn, other, oc, piece).to_multiset()
}

/// The features of `cp`'s pieces for a wazir of `color` on `w`, as a multiset.
#[verifier::opaque]
pub open spec fn cp_ms(s: PositionView, color: Color, w: Square, cp: ColoredPiece) -> Multiset<int> {
    piece_ms(
        s,
        spec_normalize_sym(w),
        spec_normalized_index(w),
        cp.spec_color() != color,
        cp.spec_color(),
        cp.spec_piece(),
    )
}

/// The features for a wazir of `color` on `w`, as a sum over the kinds and colors.
#[verifier::opaque]
pub open spec fn wazir_ms(s: PositionView, color: Color, w: Square) -> Multiset<int> {
    let o = color.spec_opposite();
    cp_ms(s, color, w, ColoredPiece::spec_new(Piece::Alfil, color)).add(
        cp_ms(s, color, w, ColoredPiece::spec_new(Piece::Dabbaba, color)),
    ).add(cp_ms(s, color, w, ColoredPiece::spec_new(Piece::Ferz, color))).add(
        cp_ms(s, color, w, ColoredPiece::spec_new(Piece::Knight, color)),
    ).add(cp_ms(s, color, w, ColoredPiece::spec_new(Piece::Alfil, o))).add(
        cp_ms(s, color, w, ColoredPiece::spec_new(Piece::Dabbaba, o)),
    ).add(cp_ms(s, color, w, ColoredPiece::spec_new(Piece::Ferz, o))).add(
        cp_ms(s, color, w, ColoredPiece::spec_new(Piece::Knight, o)),
    ).add(cp_ms(s, color, w, ColoredPiece::spec_new(Piece::Wazir, o)))
}

/// The feature of `cp` on square `a`, for a wazir of `color` on `w`.
pub open spec fn cp_board_feature(color: Color, w: Square, cp: ColoredPiece, a: Square) -> int {
    spec_board_feature(
        spec_normalized_index(w),
        cp.spec_color() != color,
        cp.spec_piece(),
        spec_apply(spec_normalize_sym(w), a),
    )
}

/// The feature of the `index`-th captured `cp`, for a wazir of `color` on `w`.
pub open spec fn cp_captured_feature(color: Color, w: Square, cp: ColoredPiece, index: int) -> int {
    spec_captured_feature(spec_normalized_index(w), cp.spec_color() != color, cp.spec_piece(), index)
}

proof fn lemma_wazir_ms(s: PositionView, color: Color, w: Square)
    ensures
        spec_wazir_features(s, color, w).to_multiset() == wazir_ms(s, color, w),
{
    broadcast use vstd::seq_lib::lemma_multiset_commutative;
    broadcast use vstd::multiset::group_multiset_axioms;

    reveal(wazir_ms);
    reveal(cp_ms);
    let o = color.spec_opposite();
    assert(o != color);
    assert(spec_wazir_features(s, color, w).to_multiset() =~= wazir_ms(s, color, w));
}

/// Two positions whose boards and hands agree on every piece but `cp` have the same
/// features but for those of `cp`, which `delta` accounts for.
proof fn lemma_one_piece_changes(
    s: PositionView,
    s2: PositionView,
    color: Color,
    w: Square,
    cp: ColoredPiece,
    delta: Multiset<int>,
)
    requires
        forall|q: ColoredPiece|
            q != cp ==> #[trigger] spec_piece_set(s2.2, q) == spec_piece_set(s.2, q) && s2.3[q.spec_index() as int]
                == s.3[q.spec_index() as int],
        cp != ColoredPiece::spec_new(Piece::Wazir, color) ==> cp_ms(s2, color, w, cp) == cp_ms(s, color, w, cp).add(
            delta,
        ),
    ensures
        wazir_ms(s2, color, w) == if cp == ColoredPiece::spec_new(Piece::Wazir, color) {
            wazir_ms(s, color, w)
        } else {
            wazir_ms(s, color, w).add(delta)
        },
{
    broadcast use vstd::multiset::group_multiset_axioms;

    reveal(wazir_ms);
    reveal(cp_ms);
    let o = color.spec_opposite();
    assert forall|q: ColoredPiece| q != cp implies #[trigger] cp_ms(s2, color, w, q) == cp_ms(s, color, w, q) by {
        assert(spec_piece_set(s2.2, q) == spec_piece_set(s.2, q));
    }
    let a1 = ColoredPiece::spec_new(Piece::Alfil, color);
    let a2 = ColoredPiece::spec_new(Piece::Dabbaba, color);
    let a3 = ColoredPiece::spec_new(Piece::Ferz, color);
    let a4 = ColoredPiece::spec_new(Piece::Knight, color);
    let b1 = ColoredPiece::spec_new(Piece::Alfil, o);
    let b2 = ColoredPiece::spec_new(Piece::Dabbaba, o);
    let b3 = ColoredPiece::spec_new(Piece::Ferz, o);
    let b4 = ColoredPiece::spec_new(Piece::Knight, o);
    let b5 = ColoredPiece::spec_new(Piece::Wazir, o);
    if cp == ColoredPiece::spec_new(Piece::Wazir, color) {
        assert(wazir_ms(s2, color, w) =~= wazir_ms(s, color, w));
    } else {
        assert(cp == a1 || cp == a2 || cp == a3 || cp == a4 || cp == b1 || cp == b2 || cp == b3 || cp == b4
            || cp == b5) by {
            lemma_colored_piece_cases(cp, color);
        }
        assert(wazir_ms(s2, color, w) =~= wazir_ms(s, color, w).add(delta));
    }
}

proof fn lemma_colored_piece_cases(cp: ColoredPiece, color: Color)
    ensures
        cp == ColoredPiece::spec_new(cp.spec_piece(), color) || cp == ColoredPiece::spec_new(
            cp.spec_piece(),
            color.spec_opposite(),
        ),
{
}

proof fn lemma_cp_index_injective(a: ColoredPiece, b: ColoredPiece)
    ensures
        a.spec_index() == b.spec_index() ==> a == b,
{
}

/// Placing `cp` on the empty square `a` adds the feature of `cp` on `a`.
proof fn lemma_place_piece(s: PositionView, s2: PositionView, color: Color, w: Square, cp: ColoredPiece, a: Square)
    requires
        s.2.len() == 64,
        s.2[a.spec_index() as int] is None,
        s2.2 == s.2.update(a.spec_index() as int, Some(cp)),
        s2.3 == s.3,
        cp != ColoredPiece::spec_new(Piece::Wazir, color),
    ensures
        wazir_ms(s2, color, w) == wazir_ms(s, color, w).insert(cp_board_feature(color, w, cp, a)),
{
    broadcast use vstd::multiset::group_multiset_axioms;
    broadcast use vstd::seq_lib::lemma_multiset_commutative;

    assert forall|q: ColoredPiece| q != cp implies #[trigger] spec_piece_set(s2.2, q) == spec_piece_set(s.2, q)
        && s2.3[q.spec_index() as int] == s.3[q.spec_index() as int] by {
        assert forall|sq: Square| #[trigger] spec_piece_set(s2.2, q).contains(sq) == spec_piece_set(s.2, q).contains(sq) by {
            lemma_square_index_injective(sq, a);
        }
        assert(spec_piece_set(s2.2, q) =~= spec_piece_set(s.2, q));
    }
    let set1 = spec_piece_set(s.2, cp);
    assert forall|sq: Square| #[trigger] spec_piece_set(s2.2, cp).contains(sq) == set1.insert(a).contains(sq) by {
        lemma_square_index_injective(sq, a);
    }
    assert(spec_piece_set(s2.2, cp) =~= set1.insert(a));
    let sym = spec_normalize_sym(w);
    let wn = spec_normalized_index(w);
    let other = cp.spec_color() != color;
    let piece = cp.spec_piece();
    let f = |sq: Square| spec_board_feature(wn, other, piece, spec_apply(sym, sq));
    lemma_sorted_insert_multiset(set1, a, f);
    reveal(cp_ms);
    let x = cp_board_feature(color, w, cp, a);
    assert(cp_ms(s2, color, w, cp) =~= cp_ms(s, color, w, cp).add(Multiset::singleton(x)));
    lemma_one_piece_changes(s, s2, color, w, cp, Multiset::singleton(x));
    assert(wazir_ms(s, color, w).add(Multiset::singleton(x)) =~= wazir_ms(s, color, w).insert(x));
}

/// One more captured `cp` in hand adds the feature of that captured piece.
#[verifier::rlimit(50)]
#[verifier::spinoff_prover]
proof fn lemma_hand_add(s: PositionView, s2: PositionView, color: Color, w: Square, cp: ColoredPiece)
    requires
        s.3.len() == 10,
        s2.2 == s.2,
        s2.3 == s.3.update(cp.spec_index() as int, s.3[cp.spec_index() as int] + 1),
    ensures
        wazir_ms(s2, color, w) == if cp.spec_piece() == Piece::Wazir {
            wazir_ms(s, color, w)
        } else {
            wazir_ms(s, color, w).insert(cp_captured_feature(color, w, cp, s.3[cp.spec_index() as int] as int))
        },
{
    broadcast use vstd::multiset::group_multiset_axioms;
    broadcast use vstd::seq_lib::lemma_multiset_commutative;

    assert forall|q: ColoredPiece| q != cp implies #[trigger] spec_piece_set(s2.2, q) == spec_piece_set(s.2, q)
        && s2.3[q.spec_index() as int] == s.3[q.spec_index() as int] by {
        lemma_cp_index_injective(q, cp);
    }
    let sym = spec_normalize_sym(w);
    let wn = spec_normalized_index(w);
    let other = cp.spec_color() != color;
    let piece = cp.spec_piece();
    let n = s.3[cp.spec_index() as int];
    let x = cp_captured_feature(color, w, cp, n as int);
    reveal(cp_ms);
    if piece == Piece::Wazir {
        assert(cp_ms(s2, color, w, cp) =~= cp_ms(s, color, w, cp).add(Multiset::empty()));
        lemma_one_piece_changes(s, s2, color, w, cp, Multiset::empty());
        assert(wazir_ms(s, color, w).add(Multiset::empty()) =~= wazir_ms(s, color, w));
    } else {
        let g = |i: int| spec_captured_feature(wn, other, piece, i);
        let bp = crate::bitboard::sorted_squares_of(spec_piece_set(s.2, cp)).map_values(
            |sq: Square| spec_board_feature(wn, other, piece, spec_apply(sym, sq)),
        );
        assert(s2.3[cp.spec_index() as int] == n + 1);
        assert(spec_piece_features(s, sym, wn, other, cp.spec_color(), piece) == bp + Seq::new(n, g));
        assert(spec_piece_features(s2, sym, wn, other, cp.spec_color(), piece) == bp + Seq::new(n + 1, g));
        assert(Seq::new(n + 1, g) =~= Seq::new(n, g).push(x));
        assert(Seq::new(n + 1, g).to_multiset() =~= Seq::new(n, g).to_multiset().insert(x)) by {
            vstd::seq_lib::to_multiset_build(Seq::new(n, g), x);
        }
        assert(cp_ms(s2, color, w, cp) =~= cp_ms(s, color, w, cp).add(Multiset::singleton(x)));
        lemma_one_piece_changes(s, s2, color, w, cp, Multiset::singleton(x));
        assert(wazir_ms(s, color, w).add(Multiset::singleton(x)) =~= wazir_ms(s, color, w).insert(x));
    }
}

pub proof fn lemma_count_witness(b: Seq<Option<ColoredPiece>>, cp: ColoredPiece, n: nat)
    requires
        count_piece_below(b, cp, n) > 0,
    ensures
        exists|k: int| 0 <= k < n && b[k] == Some(cp),
    decreases n,
{
    if b[n - 1] != Some(cp) {
        lemma_count_witness(b, cp, (n - 1) as nat);
    }
}

/// With `color`'s wazir alone on `w`, the features of the position are those for `w`.
proof fn lemma_all_features_one_wazir(s: PositionView, color: Color, w: Square)
    requires
        spec_piece_set(s.2, spec_wazir(color)) == set![w],
    ensures
        spec_all_features(s, color) == spec_wazir_features(s, color, w),
{
    let set = set![w];
    lemma_sorted_listing_exists(set);
    assert(seq![w][0] == w);
    assert(seq![w].contains(w));
    assert forall|x: Square| seq![w].contains(x) <==> set.contains(x) by {
        if seq![w].contains(x) {
            let k = choose|k: int| 0 <= k < 1 && seq![w][k] == x;
        }
    }
    lemma_sorted_listing_unique(seq![w], sorted_squares_of(set), set);
    assert(seq![w].drop_last() =~= Seq::<Square>::empty());
    assert(spec_features_for(s, color, Seq::<Square>::empty()) == Seq::<int>::empty());
    assert(spec_all_features(s, color) =~= spec_wazir_features(s, color, w));
}

/// Where `color`'s wazir stands before and after a regular move that neither moves nor
/// captures it: alone on the same square.
proof fn lemma_wazir_stays(s: PositionView, m: RegularMove, color: Color) -> (w: Square)
    requires
        spec_valid(s.0, s.1, s.2, s.3),
        spec_regular_step(s, m) is Some,
        spec_diff_regular(spec_regular_step(s, m)->Some_0, m, color) is Some,
    ensures
        spec_piece_set(s.2, spec_wazir(color)) == set![w],
        spec_piece_set(step_b3(s, m), spec_wazir(color)) == set![w],
        spec_the_wazir(spec_regular_step(s, m)->Some_0, color) == w,
{
    let t = spec_regular_step(s, m)->Some_0;
    let cp = m.colored_piece;
    let me = spec_to_move(s.1);
    let own = spec_wazir(color);
    let to = m.to;
    let b3 = step_b3(s, m);
    assert(spec_regular_legal(s, m));
    assert(cp != own);
    assert(spec_count_piece(s.2, spec_wazir(color)) == 1);
    lemma_count_witness(s.2, own, 64);
    let k = choose|k: int| 0 <= k < 64 && s.2[k] == Some(own);
    let w = Square::spec_from_index(k);
    assert(s.2[w.spec_index() as int] == Some(own));
    assert forall|x: Square| s.2[x.spec_index() as int] == Some(own) implies x == w by {
        lemma_wazir_unique(s, color, x);
        lemma_wazir_unique(s, color, w);
    }
    if let Some(f) = m.from {
        if f == w {
            assert(false);
        }
    }
    assert(s.2[to.spec_index() as int] != Some(own)) by {
        match m.captured {
            None => {
                if let Some(f) = m.from {
                    lemma_square_index_injective(f, to);
                }
            },
            Some(c) => {
                if let Some(f) = m.from {
                    lemma_square_index_injective(f, to);
                }
                assert(ColoredPiece::spec_new(c, me.spec_opposite()) != own);
            },
        }
    }
    assert forall|x: Square| #[trigger] b3[x.spec_index() as int] == Some(own) <==> x == w by {
        lemma_square_index_injective(x, to);
        lemma_square_index_injective(x, w);
        if let Some(f) = m.from {
            lemma_square_index_injective(x, f);
            lemma_square_index_injective(w, f);
        }
        lemma_square_index_injective(w, to);
    }
    assert(spec_piece_set(s.2, own) =~= set![w]);
    assert(spec_piece_set(b3, own) =~= set![w]);
    assert(t.2[w.spec_index() as int] == Some(own));
    w
}

/// The feature the moving piece had before a legal regular move: on its square, or the
/// last of its kind in hand.
pub open spec fn leave_feature(s: PositionView, m: RegularMove, color: Color, w: Square) -> int {
    match m.from {
        Some(f) => cp_board_feature(color, w, m.colored_piece, f),
        None => cp_captured_feature(
            color,
            w,
            m.colored_piece,
            step_c1(s, m)[m.colored_piece.spec_index() as int] as int,
        ),
    }
}

/// The feature of the piece a legal regular move captures, on the target square.
pub open spec fn captured_board_feature(s: PositionView, m: RegularMove, color: Color, w: Square) -> int {
    cp_board_feature(
        color,
        w,
        ColoredPiece::spec_new(m.captured->Some_0, spec_to_move(s.1).spec_opposite()),
        m.to,
    )
}

/// The feature of the piece a legal regular move captures, once in the mover's hand.
pub open spec fn captured_hand_feature(s: PositionView, m: RegularMove, color: Color, w: Square) -> int {
    let hc = ColoredPiece::spec_new(m.captured->Some_0, spec_to_move(s.1));
    cp_captured_feature(color, w, hc, step_c1(s, m)[hc.spec_index() as int] as int)
}

/// What `spec_diff_regular` reports, in terms of the position before the move.
proof fn lemma_diff_values(s: PositionView, m: RegularMove, color: Color, w: Square)
    requires
        s.2.len() == 64,
        s.3.len() == 10,
        spec_regular_step(s, m) is Some,
        spec_diff_regular(spec_regular_step(s, m)->Some_0, m, color) is Some,
        spec_the_wazir(spec_regular_step(s, m)->Some_0, color) == w,
    ensures
        ({
            let d = spec_diff_regular(spec_regular_step(s, m)->Some_0, m, color)->Some_0;
            let e = Seq::<int>::empty();
            let src = leave_feature(s, m, color, w);
            let landing = cp_board_feature(color, w, m.colored_piece, m.to);
            &&& m.captured is None ==> d.0 == e.push(landing) && d.1 == e.push(src)
            &&& m.captured == Some(Piece::Wazir) ==> d.0 == e.push(landing) && d.1 == e.push(src).push(
                captured_board_feature(s, m, color, w),
            )
            &&& (m.captured is Some && m.captured != Some(Piece::Wazir)) ==> d.0 == e.push(landing).push(
                captured_hand_feature(s, m, color, w),
            ) && d.1 == e.push(src).push(captured_board_feature(s, m, color, w))
        }),
{
    let t = spec_regular_step(s, m)->Some_0;
    let d = spec_diff_regular(t, m, color)->Some_0;
    let cp = m.colored_piece;
    let me = spec_to_move(s.1);
    let c1 = step_c1(s, m);
    let e = Seq::<int>::empty();
    assert(spec_regular_legal(s, m));
    assert(cp.spec_color() == me);
    assert(t.3 == step_c2(s, m));
    if m.from is None {
        if let Some(c) = m.captured {
            lemma_cp_index_injective(cp, ColoredPiece::spec_new(c, me));
        }
        assert(t.3[cp.spec_index() as int] == c1[cp.spec_index() as int]);
    }
    let src = leave_feature(s, m, color, w);
    let landing = cp_board_feature(color, w, cp, m.to);
    match m.captured {
        None => {
            assert(d.0 =~= e.push(landing));
            assert(d.1 =~= e.push(src));
        },
        Some(c) => {
            let hc = ColoredPiece::spec_new(c, me);
            assert(t.3[hc.spec_index() as int] == c1[hc.spec_index() as int] + 1);
            assert(d.1 =~= e.push(src).push(captured_board_feature(s, m, color, w)));
            if c == Piece::Wazir {
                assert(d.0 =~= e.push(landing));
            } else {
                assert(d.0 =~= e.push(landing).push(captured_hand_feature(s, m, color, w)));
            }
        },
    }
}

/// The moving piece leaves its square or the hand.
proof fn lemma_leave(s: PositionView, m: RegularMove, color: Color, w: Square)
    requires
        s.2.len() == 64,
        s.3.len() == 10,
        spec_regular_legal(s, m),
        m.colored_piece != spec_wazir(color),
        m.from is None ==> m.colored_piece.spec_piece() != Piece::Wazir,
    ensures
        wazir_ms(s, color, w) == wazir_ms((s.0, s.1, step_b1(s, m), step_c1(s, m)), color, w).insert(
            leave_feature(s, m, color, w),
        ),
{
    let cp = m.colored_piece;
    let b1 = step_b1(s, m);
    let c1 = step_c1(s, m);
    let s1 = (s.0, s.1, b1, c1);
    match m.from {
        Some(f) => {
            assert(s.2 =~= b1.update(f.spec_index() as int, Some(cp)));
            lemma_place_piece(s1, s, color, w, cp, f);
        },
        None => {
            assert(s.3 =~= c1.update(cp.spec_index() as int, c1[cp.spec_index() as int] + 1));
            lemma_hand_add(s1, s, color, w, cp);
        },
    }
}

/// A capture takes the captured piece off the board and puts it in the mover's hand (a
/// wazir adds no hand feature).
proof fn lemma_capture(s: PositionView, m: RegularMove, color: Color, w: Square)
    requires
        s.2.len() == 64,
        s.3.len() == 10,
        spec_regular_legal(s, m),
        m.captured is Some,
        ColoredPiece::spec_new(m.captured->Some_0, spec_to_move(s.1).spec_opposite()) != spec_wazir(color),
    ensures
        ({
            let s1 = (s.0, s.1, step_b1(s, m), step_c1(s, m));
            let s1b = (s.0, s.1, step_b2(s, m), step_c1(s, m));
            let s2 = (s.0, s.1, step_b2(s, m), step_c2(s, m));
            &&& wazir_ms(s1, color, w) == wazir_ms(s1b, color, w).insert(captured_board_feature(s, m, color, w))
            &&& m.captured == Some(Piece::Wazir) ==> wazir_ms(s2, color, w) == wazir_ms(s1b, color, w)
            &&& m.captured != Some(Piece::Wazir) ==> wazir_ms(s2, color, w) == wazir_ms(s1b, color, w).insert(
                captured_hand_feature(s, m, color, w),
            )
        }),
{
    let me = spec_to_move(s.1);
    let to = m.to;
    let c = m.captured->Some_0;
    let b1 = step_b1(s, m);
    let c1 = step_c1(s, m);
    let b2 = step_b2(s, m);
    let c2 = step_c2(s, m);
    let s1 = (s.0, s.1, b1, c1);
    let s1b = (s.0, s.1, b2, c1);
    let s2 = (s.0, s.1, b2, c2);
    let cc = ColoredPiece::spec_new(c, me.spec_opposite());
    let hc = ColoredPiece::spec_new(c, me);
    assert(b1 =~= b2.update(to.spec_index() as int, Some(cc)));
    lemma_place_piece(s1b, s1, color, w, cc, to);
    assert(c2 =~= c1.update(hc.spec_index() as int, c1[hc.spec_index() as int] + 1));
    lemma_hand_add(s1b, s2, color, w, hc);
}

proof fn lemma_ms_quiet(a: Multiset<int>, src: int, landing: int)
    ensures
        a.insert(src).add(Multiset::empty().insert(landing)) == a.insert(landing).add(
            Multiset::empty().insert(src),
        ),
{
    broadcast use vstd::multiset::group_multiset_axioms;

    assert(a.insert(src).add(Multiset::empty().insert(landing)) =~= a.insert(landing).add(
        Multiset::empty().insert(src),
    ));
}

proof fn lemma_ms_capture_wazir(a: Multiset<int>, src: int, landing: int, capb: int)
    ensures
        a.insert(capb).insert(src).add(Multiset::empty().insert(landing)) == a.insert(landing).add(
            Multiset::empty().insert(src).insert(capb),
        ),
{
    broadcast use vstd::multiset::group_multiset_axioms;

    assert(a.insert(capb).insert(src).add(Multiset::empty().insert(landing)) =~= a.insert(landing).add(
        Multiset::empty().insert(src).insert(capb),
    ));
}

proof fn lemma_ms_capture(a: Multiset<int>, src: int, landing: int, capb: int, hand: int)
    ensures
        a.insert(capb).insert(src).add(Multiset::empty().insert(landing).insert(hand)) == a.insert(
            hand,
        ).insert(landing).add(Multiset::empty().insert(src).insert(capb)),
{
    broadcast use vstd::multiset::group_multiset_axioms;

    assert(a.insert(capb).insert(src).add(Multiset::empty().insert(landing).insert(hand)) =~= a.insert(
        hand,
    ).insert(landing).add(Multiset::empty().insert(src).insert(capb)));
}

/// The facts about a legal regular move that neither moves nor captures `color`'s wazir
/// that the features need: the wazir's square, the features as a sum over pieces, what the
/// move reports, and that a dropped piece is no wazir.
proof fn lemma_move_facts(s: PositionView, m: RegularMove, color: Color) -> (w: Square)
    requires
        spec_valid(s.0, s.1, s.2, s.3),
        spec_regular_step(s, m) is Some,
        spec_diff_regular(spec_regular_step(s, m)->Some_0, m, color) is Some,
    ensures
        spec_all_features(s, color).to_multiset() == wazir_ms(s, color, w),
        spec_all_features(spec_regular_step(s, m)->Some_0, color).to_multiset() == wazir_ms(
            spec_regular_step(s, m)->Some_0,
            color,
            w,
        ),
        spec_the_wazir(spec_regular_step(s, m)->Some_0, color) == w,
        m.from is None ==> m.colored_piece.spec_piece() != Piece::Wazir,
        s.2.len() == 64,
        s.3.len() == 10,
{
    let t = spec_regular_step(s, m)->Some_0;
    let cp = m.colored_piece;
    let me = spec_to_move(s.1);
    assert(spec_regular_legal(s, m));
    let w = lemma_wazir_stays(s, m, color);
    lemma_all_features_one_wazir(s, color, w);
    assert(t.2 == step_b3(s, m));
    lemma_all_features_one_wazir(t, color, w);
    lemma_wazir_ms(s, color, w);
    lemma_wazir_ms(t, color, w);
    if m.from is None {
        lemma_no_captured_wazir(s);
        assert(cp.spec_piece() != Piece::Wazir) by {
            if cp.spec_piece() == Piece::Wazir {
                assert(cp == spec_wazir(me));
            }
        }
    }
    w
}

/// A regular move changes `color`'s features by exactly what `diff_regular` reports: the
/// features before the move together with the added ones are, counted with multiplicity,
/// the features after it together with the removed ones.
#[verifier::rlimit(60)]
#[verifier::spinoff_prover]
pub proof fn lemma_diff_regular_features(s: PositionView, m: RegularMove, color: Color)
    requires
        spec_valid(s.0, s.1, s.2, s.3),
        spec_regular_step(s, m) is Some,
        spec_diff_regular(spec_regular_step(s, m)->Some_0, m, color) is Some,
    ensures
        ({
            let t = spec_regular_step(s, m)->Some_0;
            let d = spec_diff_regular(t, m, color)->Some_0;
            (spec_all_features(s, color) + d.0).to_multiset() == (spec_all_features(t, color)
                + d.1).to_multiset()
        }),
{
    let t = spec_regular_step(s, m)->Some_0;
    let d = spec_diff_regular(t, m, color)->Some_0;
    let cp = m.colored_piece;
    let me = spec_to_move(s.1);
    assert(spec_regular_legal(s, m));
    assert(cp.spec_color() == me);
    assert(cp != spec_wazir(color));
    let w = lemma_move_facts(s, m, color);
    lemma_diff_values(s, m, color, w);
    lemma_leave(s, m, color, w);
    let b2 = step_b2(s, m);
    let c1 = step_c1(s, m);
    let c2 = step_c2(s, m);
    let s1 = (s.0, s.1, step_b1(s, m), c1);
    let s2 = (s.0, s.1, b2, c2);
    let src = leave_feature(s, m, color, w);
    let landing = cp_board_feature(color, w, cp, m.to);
    assert(t.2 == b2.update(m.to.spec_index() as int, Some(cp)));
    assert(t.3 == c2);
    lemma_place_piece(s2, t, color, w, cp, m.to);
    let e = Seq::<int>::empty();
    vstd::seq_lib::lemma_multiset_commutative(spec_all_features(s, color), d.0);
    vstd::seq_lib::lemma_multiset_commutative(spec_all_features(t, color), d.1);
    vstd::seq_lib::to_multiset_build(e, src);
    vstd::seq_lib::to_multiset_build(e, landing);
    assert(e.to_multiset() == Multiset::<int>::empty()) by {
        broadcast use vstd::seq_lib::group_to_multiset_ensures;
        broadcast use vstd::multiset::group_multiset_axioms;
        assert(e.to_multiset() =~= Multiset::<int>::empty());
    }
    match m.captured {
        None => {
            assert(s2 == s1);
            lemma_ms_quiet(wazir_ms(s1, color, w), src, landing);
        },
        Some(c) => {
            let s1b = (s.0, s.1, b2, c1);
            assert(ColoredPiece::spec_new(c, me.spec_opposite()) != spec_wazir(color));
            lemma_capture(s, m, color, w);
            let capb = captured_board_feature(s, m, color, w);
            vstd::seq_lib::to_multiset_build(e.push(src), capb);
            if c == Piece::Wazir {
                lemma_ms_capture_wazir(wazir_ms(s1b, color, w), src, landing, capb);
            } else {
                let hand = captured_hand_feature(s, m, color, w);
                vstd::seq_lib::to_multiset_build(e.push(landing), hand);
                lemma_ms_capture(wazir_ms(s1b, color, w), src, landing, capb, hand);
            }
        },
    }
}

proof fn lemma_ms_sub1(a: Multiset<int>, x: int)
    ensures
        Multiset::empty().insert(x).subset_of(a.insert(x)),
{
    broadcast use vstd::multiset::group_multiset_axioms;

}

proof fn lemma_ms_sub2(a: Multiset<int>, x: int, y: int)
    ensures
        Multiset::empty().insert(y).insert(x).subset_of(a.insert(x).insert(y)),
{
    broadcast use vstd::multiset::group_multiset_axioms;

}

/// What `diff_regular` reports as removed was among `color`'s features before the move,
/// and what it reports as added is among them after it, counted with multiplicity.
#[verifier::rlimit(60)]
#[verifier::spinoff_prover]
pub proof fn lemma_diff_regular_subsets(s: PositionView, m: RegularMove, color: Color)
    requires
        spec_valid(s.0, s.1, s.2, s.3),
        spec_regular_step(s, m) is Some,
        spec_diff_regular(spec_regular_step(s, m)->Some_0, m, color) is Some,
    ensures
        ({
            let t = spec_regular_step(s, m)->Some_0;
            let d = spec_diff_regular(t, m, color)->Some_0;
            &&& d.1.to_multiset().subset_of(spec_all_features(s, color).to_multiset())
            &&& d.0.to_multiset().subset_of(spec_all_features(t, color).to_multiset())
        }),
{
    let t = spec_regular_step(s, m)->Some_0;
    let cp = m.colored_piece;
    let me = spec_to_move(s.1);
    assert(spec_regular_legal(s, m));
    assert(cp.spec_color() == me);
    assert(cp != spec_wazir(color));
    let w = lemma_move_facts(s, m, color);
    lemma_diff_values(s, m, color, w);
    lemma_leave(s, m, color, w);
    let b2 = step_b2(s, m);
    let c1 = step_c1(s, m);
    let c2 = step_c2(s, m);
    let s1 = (s.0, s.1, step_b1(s, m), c1);
    let s2 = (s.0, s.1, b2, c2);
    let src = leave_feature(s, m, color, w);
    let landing = cp_board_feature(color, w, cp, m.to);
    assert(t.2 == b2.update(m.to.spec_index() as int, Some(cp)));
    assert(t.3 == c2);
    lemma_place_piece(s2, t, color, w, cp, m.to);
    let e = Seq::<int>::empty();
    vstd::seq_lib::to_multiset_build(e, src);
    vstd::seq_lib::to_multiset_build(e, landing);
    assert(e.to_multiset() == Multiset::<int>::empty()) by {
        broadcast use vstd::seq_lib::group_to_multiset_ensures;
        broadcast use vstd::multiset::group_multiset_axioms;
        assert(e.to_multiset() =~= Multiset::<int>::empty());
    }
    match m.captured {
        None => {
            assert(s2 == s1);
            lemma_ms_sub1(wazir_ms(s1, color, w), src);
            lemma_ms_sub1(wazir_ms(s2, color, w), landing);
        },
        Some(c) => {
            let s1b = (s.0, s.1, b2, c1);
            assert(ColoredPiece::spec_new(c, me.spec_opposite()) != spec_wazir(color));
            lemma_capture(s, m, color, w);
            let capb = captured_board_feature(s, m, color, w);
            vstd::seq_lib::to_multiset_build(e.push(src), capb);
            lemma_ms_sub2(wazir_ms(s1b, color, w), capb, src);
            if c == Piece::Wazir {
                lemma_ms_sub1(wazir_ms(s2, color, w), landing);
            } else {
                let hand = captured_hand_feature(s, m, color, w);
                vstd::seq_lib::to_multiset_build(e.push(landing), hand);
                lemma_ms_sub2(wazir_ms(s1b, color, w), hand, landing);
            }
        },
    }
}

/// The board with the first `j` pieces of a setup move placed.
pub open spec fn partial_setup_board(b: Seq<Option<ColoredPiece>>, m: SetupMove, j: int) -> Seq<
    Option<ColoredPiece>,
> {
    Seq::new(
        64,
        |k: int|
            if spec_in_setup_range(m.color, k) && spec_setup_square(m.color, k) < j {
                Some(ColoredPiece::spec_new(m.pieces@[spec_setup_square(m.color, k)], m.color))
            } else {
                b[k]
            },
    )
}

proof fn lemma_rotate180(i: int)
    requires
        0 <= i < 64,
    ensures
        spec_apply(Symmetry::Rotate180, Square::spec_from_index(i)) == Square::spec_from_index(63 - i),
{
    assert(Symmetry::Rotate180.spec_bits() == (true, true, false));
    assert(Square::spec_from_index(i).spec_index() == i);
    assert(spec_apply_index(Symmetry::Rotate180, i) == 63 - i);
}

/// The features a blue setup adds for red, as a function of the piece's position in the
/// setup.
pub open spec fn setup_added_feature(w: Square, m: SetupMove) -> spec_fn(int) -> int {
    |i: int|
        spec_board_feature(
            spec_normalized_index(w),
            true,
            m.pieces@[i],
            spec_apply(spec_normalize_sym(w), spec_apply(Symmetry::Rotate180, Square::spec_from_index(i))),
        )
}

proof fn lemma_setup_partial(s: PositionView, m: SetupMove, w: Square, j: int)
    requires
        spec_valid(s.0, s.1, s.2, s.3),
        spec_setup_legal(s, m),
        m.color == Color::Blue,
        0 <= j <= 16,
    ensures
        wazir_ms((s.0, s.1, partial_setup_board(s.2, m, j), s.3), Color::Red, w) == wazir_ms(
            s,
            Color::Red,
            w,
        ).add(Seq::new(j as nat, setup_added_feature(w, m)).to_multiset()),
    decreases j,
{
    broadcast use vstd::multiset::group_multiset_axioms;
    broadcast use vstd::seq_lib::group_to_multiset_ensures;

    let f = setup_added_feature(w, m);
    if j == 0 {
        assert(partial_setup_board(s.2, m, 0) =~= s.2);
        assert(Seq::new(0, f) =~= Seq::<int>::empty());
        assert(wazir_ms(s, Color::Red, w).add(Seq::<int>::empty().to_multiset()) =~= wazir_ms(s, Color::Red, w));
    } else {
        let i = j - 1;
        lemma_setup_partial(s, m, w, i);
        let k = 63 - i;
        let a = Square::spec_from_index(k);
        assert(a.spec_index() == k);
        let cp = ColoredPiece::spec_new(m.pieces@[i], Color::Blue);
        let sa = (s.0, s.1, partial_setup_board(s.2, m, i), s.3);
        let sb = (s.0, s.1, partial_setup_board(s.2, m, j), s.3);
        lemma_setup_square_empty(s.1, s.2, s.3, k);
        assert(sb.2 =~= sa.2.update(k, Some(cp)));
        lemma_place_piece(sa, sb, Color::Red, w, cp, a);
        lemma_rotate180(i);
        assert(cp_board_feature(Color::Red, w, cp, a) == f(i));
        assert(Seq::new(j as nat, f) =~= Seq::new(i as nat, f).push(f(i)));
        assert(wazir_ms(sb, Color::Red, w) =~= wazir_ms(s, Color::Red, w).add(
            Seq::new(j as nat, f).to_multiset(),
        ));
    }
}

/// A blue setup move changes red's features by exactly what `diff_setup` reports: the
/// features after it are, counted with multiplicity, the features before it together with
/// the added ones.
pub proof fn lemma_diff_setup_features(s: PositionView, m: SetupMove)
    requires
        spec_valid(s.0, s.1, s.2, s.3),
        spec_setup_legal(s, m),
        m.color == Color::Blue,
    ensures
        ({
            let t = spec_setup_result(s, m);
            spec_all_features(t, Color::Red).to_multiset() == (spec_all_features(s, Color::Red)
                + spec_diff_setup_added(t, m, Color::Red)).to_multiset()
        }),
{
    let t = spec_setup_result(s, m);
    let own = spec_wazir(Color::Red);
    lemma_valid_setup_piece(s.1, s.2, s.3, own);
    assert(spec_count_piece(s.2, own) == 1);
    lemma_count_witness(s.2, own, 64);
    let k = choose|k: int| 0 <= k < 64 && s.2[k] == Some(own);
    let w = Square::spec_from_index(k);
    assert(s.2[w.spec_index() as int] == Some(own));
    lemma_wazir_unique(s, Color::Red, w);
    assert forall|x: Square| #[trigger] s.2[x.spec_index() as int] == Some(own) <==> x == w by {
        if s.2[x.spec_index() as int] == Some(own) {
            lemma_wazir_unique(s, Color::Red, x);
        }
    }
    assert forall|x: Square| #[trigger] t.2[x.spec_index() as int] == Some(own) <==> x == w by {
        if spec_in_setup_range(Color::Blue, x.spec_index() as int) {
            lemma_setup_square_empty(s.1, s.2, s.3, x.spec_index() as int);
        }
        if spec_in_setup_range(Color::Blue, w.spec_index() as int) {
            lemma_setup_square_empty(s.1, s.2, s.3, w.spec_index() as int);
        }
        assert(s.2[x.spec_index() as int] == Some(own) <==> x == w);
    }
    assert(spec_piece_set(s.2, own) =~= set![w]);
    assert(spec_piece_set(t.2, own) =~= set![w]);
    assert(t.2[w.spec_index() as int] == Some(own));
    assert(spec_the_wazir(t, Color::Red) == w);
    lemma_all_features_one_wazir(s, Color::Red, w);
    lemma_all_features_one_wazir(t, Color::Red, w);
    lemma_wazir_ms(s, Color::Red, w);
    lemma_wazir_ms(t, Color::Red, w);
    lemma_setup_partial(s, m, w, 16);
    assert(partial_setup_board(s.2, m, 16) =~= spec_setup_board(s.2, m));
    assert(Seq::new(16, setup_added_feature(w, m)) =~= spec_diff_setup_added(t, m, Color::Red));
    vstd::seq_lib::lemma_multiset_commutative(spec_all_features(s, Color::Red), spec_diff_setup_added(t, m, Color::Red));
    assert((s.0, s.1, partial_setup_board(s.2, m, 16), s.3) == (s.0, s.1, t.2, t.3));
    assert(wazir_ms(t, Color::Red, w) == wazir_ms((s.0, s.1, t.2, t.3), Color::Red, w)) by {
        reveal(wazir_ms);
        reveal(cp_ms);
    }
}

/// The features lie in `0..WPS_COUNT`.
pub open spec fn features_in_range(fs: Seq<int>) -> bool {
    forall|i: int| 0 <= i < fs.len() ==> 0 <= #[trigger] fs[i] < 6360
}

proof fn lemma_in_range_concat(a: Seq<int>, b: Seq<int>)
    requires
        features_in_range(a),
        features_in_range(b),
    ensures
        features_in_range(a + b),
{
    assert forall|i: int| 0 <= i < (a + b).len() implies 0 <= #[trigger] (a + b)[i] < 6360 by {
        if i < a.len() {
            assert((a + b)[i] == a[i]);
        } else {
            assert((a + b)[i] == b[i - a.len()]);
        }
    }
}

proof fn lemma_piece_features_bounds(
    s: PositionView,
    sym: Symmetry,
    wn: nat,
    other: bool,
    oc: Color,
    piece: Piece,
)
    requires
        wn < 10,
        piece != Piece::Wazir ==> s.3[ColoredPiece::spec_new(piece, oc).spec_index() as int] <= spec_total_count(piece),
    ensures
        spec_piece_features(s, sym, wn, other, oc, piece).len() <= 80,
        features_in_range(spec_piece_features(s, sym, wn, other, oc, piece)),
{
    let cp = ColoredPiece::spec_new(piece, oc);
    let set = spec_piece_set(s.2, cp);
    lemma_sorted_listing_exists(set);
    lemma_sorted_listing_len(sorted_squares_of(set), set);
    let board = sorted_squares_of(set).map_values(
        |sq: Square| spec_board_feature(wn, other, piece, spec_apply(sym, sq)),
    );
    let num: nat = if piece == Piece::Wazir {
        0
    } else {
        s.3[cp.spec_index() as int]
    };
    let hand = Seq::new(num, |i: int| spec_captured_feature(wn, other, piece, i));
    assert(spec_piece_features(s, sym, wn, other, oc, piece) == board + hand);
    assert(num <= 16);
    assert forall|i: int| 0 <= i < board.len() implies 0 <= #[trigger] board[i] < 6360 by {
        let sq = spec_apply(sym, sorted_squares_of(set)[i]);
        assert(sq.spec_index() < 64);
        assert(piece.spec_index() <= 4);
        assert(board[i] == wn * 636 + ((if other { 4int } else { 0int }) + piece.spec_index()) * 64 + sq.spec_index());
        assert(wn * 636 <= 9 * 636) by (nonlinear_arith)
            requires
                wn < 10,
        ;
    }
    assert forall|i: int| 0 <= i < hand.len() implies 0 <= #[trigger] hand[i] < 6360 by {
        assert(spec_captured_offset(piece) + num <= 30);
        assert(wn * 636 <= 9 * 636) by (nonlinear_arith)
            requires
                wn < 10,
        ;
    }
    lemma_in_range_concat(board, hand);
}

/// In a valid position the features of each color number at most 720 and lie in
/// `0..WPS_COUNT`.
pub proof fn lemma_all_features_bounds(s: PositionView, color: Color)
    requires
        spec_valid(s.0, s.1, s.2, s.3),
    ensures
        spec_all_features(s, color).len() <= 720,
        features_in_range(spec_all_features(s, color)),
{
    let own = spec_wazir(color);
    let set = spec_piece_set(s.2, own);
    lemma_sorted_listing_exists(set);
    let l = sorted_squares_of(set);
    if l.len() >= 2 {
        assert(l.contains(l[0]) && l.contains(l[1]));
        lemma_wazir_unique(s, color, l[0]);
        lemma_wazir_unique(s, color, l[1]);
        assert(l[0].spec_index() < l[1].spec_index());
    }
    if l.len() == 0 {
        assert(spec_all_features(s, color) == Seq::<int>::empty());
    } else {
        let w = l[0];
        assert(l.len() == 1);
        assert(l.last() == w);
        assert(l.drop_last() =~= Seq::<Square>::empty());
        assert(spec_features_for(s, color, l.drop_last()) == Seq::<int>::empty());
        assert(spec_all_features(s, color) =~= spec_wazir_features(s, color, w));
        lemma_valid_captured_text(s);
        let sym = spec_normalize_sym(w);
        let wn = spec_normalized_index(w);
        let o = color.spec_opposite();
        lemma_piece_features_bounds(s, sym, wn, false, color, Piece::Alfil);
        lemma_piece_features_bounds(s, sym, wn, false, color, Piece::Dabbaba);
        lemma_piece_features_bounds(s, sym, wn, false, color, Piece::Ferz);
        lemma_piece_features_bounds(s, sym, wn, false, color, Piece::Knight);
        lemma_piece_features_bounds(s, sym, wn, true, o, Piece::Alfil);
        lemma_piece_features_bounds(s, sym, wn, true, o, Piece::Dabbaba);
        lemma_piece_features_bounds(s, sym, wn, true, o, Piece::Ferz);
        lemma_piece_features_bounds(s, sym, wn, true, o, Piece::Knight);
        lemma_piece_features_bounds(s, sym, wn, true, o, Piece::Wazir);
        let pa = spec_piece_features(s, sym, wn, false, color, Piece::Alfil);
        let pd = spec_piece_features(s, sym, wn, false, color, Piece::Dabbaba);
        let pf = spec_piece_features(s, sym, wn, false, color, Piece::Ferz);
        let pk = spec_piece_features(s, sym, wn, false, color, Piece::Knight);
        let qa = spec_piece_features(s, sym, wn, true, o, Piece::Alfil);
        let qd = spec_piece_features(s, sym, wn, true, o, Piece::Dabbaba);
        let qf = spec_piece_features(s, sym, wn, true, o, Piece::Ferz);
        let qk = spec_piece_features(s, sym, wn, true, o, Piece::Knight);
        let qw = spec_piece_features(s, sym, wn, true, o, Piece::Wazir);
        lemma_in_range_concat(pa, pd);
        lemma_in_range_concat(pa + pd, pf);
        lemma_in_range_concat(pa + pd + pf, pk);
        lemma_in_range_concat(pa + pd + pf + pk, Seq::<int>::empty());
        lemma_in_range_concat(qa, qd);
        lemma_in_range_concat(qa + qd, qf);
        lemma_in_range_concat(qa + qd + qf, qk);
        lemma_in_range_concat(qa + qd + qf + qk, qw);
        let side_f = pa + pd + pf + pk + Seq::<int>::empty();
        let side_t = qa + qd + qf + qk + qw;
        lemma_in_range_concat(side_f, side_t);
        assert(spec_wazir_features(s, color, w) == side_f + side_t);
    }
}

} // verus!
