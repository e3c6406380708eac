use crate::bitboard::sorted_squares_of;
use crate::board::spec_piece_set;
use crate::captured::{captured_index, spec_captured_offset, spec_total_count};
use crate::color::Color;
use crate::moves::{RegularMove, SetupMove, SETUP_MOVE_SIZE};
use crate::piece::{ColoredPiece, Piece};
use crate::position::{spec_has_wazir, spec_the_wazir, Position, PositionView};
use crate::square::{group_square, Square};
use crate::symmetry::{
    spec_apply, spec_normalize_sym, spec_normalized_index, NormalizedSquare, Symmetry,
};
use vstd::prelude::*;

verus! {

broadcast use group_square;

/// Start of the captured-piece features within the features of one wazir square.
pub const WPS_CAPTURED_OFFSET: usize = 576;

/// Features per normalized square of the wazir.
pub const WPS_COUNT_PER_WAZIR: usize = 636;

/// Number of features.
pub const WPS_COUNT: usize = 6360;

/// Wazir-piece-square features: for the wazir of the side evaluated, normalized by a
/// symmetry, each other piece on its (mapped) square, and each captured piece held.
#[derive(Debug, Clone, Copy)]
pub struct WPSFeatures;

/// The feature of a piece on a square.
pub open spec fn spec_board_feature(wn: nat, other: bool, piece: Piece, square: Square) -> int {
    wn * 636 + ((if other { 4int } else { 0int }) + piece.spec_index()) * 64 + square.spec_index()
}

/// The feature of the `index`-th captured piece of a kind.
pub open spec fn spec_captured_feature(wn: nat, other: bool, piece: Piece, index: int) -> int {
    wn * 636 + 576 + (if other { 30int } else { 0int }) + spec_captured_offset(piece) + index
}

/// The features of the pieces of one kind and color: on the board in square order, then
/// captured (none for a wazir).
pub open spec fn spec_piece_features(
    s: PositionView,
    sym: Symmetry,
    wn: nat,
    other: bool,
    oc: Color,
    piece: Piece,
) -> Seq<int> {
    let cp = ColoredPiece::spec_new(piece, oc);
    let num: nat = if piece == Piece::Wazir {
        0
    } else {
        s.3[cp.spec_index() as int]
    };
    sorted_squares_of(spec_piece_set(s.2, cp)).map_values(
        |sq: Square| spec_board_feature(wn, other, piece, spec_apply(sym, sq)),
    ) + Seq::new(num, |i: int| spec_captured_feature(wn, other, piece, i))
}

/// The features of one color's pieces, by kind (the side's own wazir left out).
pub open spec fn spec_side_features(s: PositionView, sym: Symmetry, wn: nat, other: bool, oc: Color) -> Seq<
    int,
> {
    spec_piece_features(s, sym, wn, other, oc, Piece::Alfil) + spec_piece_features(
        s,
        sym,
        wn,
        other,
        oc,
        Piece::Dabbaba,
    ) + spec_piece_features(s, sym, wn, other, oc, Piece::Ferz) + spec_piece_features(
        s,
        sym,
        wn,
        other,
        oc,
        Piece::Knight,
    ) + if other {
        spec_piece_features(s, sym, wn, other, oc, Piece::Wazir)
    } else {
        Seq::empty()
    }
}

/// The features for a wazir of `color` on `w`: own pieces, then the opponent's.
pub open spec fn spec_wazir_features(s: PositionView, color: Color, w: Square) -> Seq<int> {
    let sym = spec_normalize_sym(w);
    let wn = spec_normalized_index(w);
    spec_side_features(s, sym, wn, false, color) + spec_side_features(
        s,
        sym,
        wn,
        true,
        color.spec_opposite(),
    )
}

/// The features for each wazir square in `ws`, in order.
pub open spec fn spec_features_for(s: PositionView, color: Color, ws: Seq<Square>) -> Seq<int>
    decreases ws.len(),
{
    if ws.len() == 0 {
        Seq::empty()
    } else {
        spec_features_for(s, color, ws.drop_last()) + spec_wazir_features(s, color, ws.last())
    }
}

/// All features of a position for `color`.
pub open spec fn spec_all_features(s: PositionView, color: Color) -> Seq<int> {
    spec_features_for(
        s,
        color,
        sorted_squares_of(spec_piece_set(s.2, ColoredPiece::spec_new(Piece::Wazir, color))),
    )
}

/// The features that a blue setup move adds for red, read off the position `t` after it:
/// each piece placed, as an opponent piece, on its square seen from red.
pub open spec fn spec_diff_setup_added(t: PositionView, m: SetupMove, color: Color) -> Seq<int> {
    let w = spec_the_wazir(t, color);
    let sym = spec_normalize_sym(w);
    let wn = spec_normalized_index(w);
    Seq::new(
        16,
        |i: int|
            spec_board_feature(
                wn,
                true,
                m.pieces@[i],
                spec_apply(sym, spec_apply(Symmetry::Rotate180, Square::spec_from_index(i))),
            ),
    )
}

/// The features that a regular move adds and removes for `color`'s evaluation, read off
/// the position `t` after the move: the moving piece leaves its square (or the hand) and
/// lands on the target; a captured piece leaves the board and joins the hand of the
/// capturer. `None` when `color`'s wazir moves or is captured, which changes every feature.
pub open spec fn spec_diff_regular(t: PositionView, m: RegularMove, color: Color) -> Option<
    (Seq<int>, Seq<int>),
> {
    if m.colored_piece == ColoredPiece::spec_new(Piece::Wazir, color) || (m.colored_piece.spec_color()
        != color && m.captured == Some(Piece::Wazir)) {
        None
    } else {
        let w = spec_the_wazir(t, color);
        let sym = spec_normalize_sym(w);
        let wn = spec_normalized_index(w);
        let mc = m.colored_piece.spec_color();
        let piece = m.colored_piece.spec_piece();
        let is_opp = mc != color;
        let source = match m.from {
            Some(from) => spec_board_feature(wn, is_opp, piece, spec_apply(sym, from)),
            None => spec_captured_feature(wn, is_opp, piece, t.3[m.colored_piece.spec_index() as int] as int),
        };
        let landing = spec_board_feature(wn, is_opp, piece, spec_apply(sym, m.to));
        let removed = match m.captured {
            None => seq![source],
            Some(c) => seq![source, spec_board_feature(wn, !is_opp, c, spec_apply(sym, m.to))],
        };
        let added = match m.captured {
            Some(c) => if c != Piece::Wazir {
                seq![landing, spec_captured_feature(wn, is_opp, c, t.3[ColoredPiece::spec_new(c, mc).spec_index() as int] - 1)]
            } else {
                seq![landing]
            },
            None => seq![landing],
        };
        Some((added, removed))
    }
}

/// The features as integers.
pub open spec fn ints(v: Seq<usize>) -> Seq<int> {
    v.map_values(|x: usize| x as int)
}

proof fn lemma_ints_push(v: Seq<usize>, x: usize)
    ensures
        ints(v.push(x)) == ints(v).push(x as int),
{
    assert(ints(v.push(x)) =~= ints(v).push(x as int));
}

/// Appends the features of the pieces of one kind and color.
fn push_piece_features(
    out: &mut Vec<usize>,
    position: &Position,
    symmetry: Symmetry,
    wn: NormalizedSquare,
    other: bool,
    oc: Color,
    piece: Piece,
)
    ensures
        ints(final(out)@) == ints(old(out)@) + spec_piece_features(
            position@,
            symmetry,
            wn.spec_index(),
            other,
            oc,
            piece,
        ),
{
    let cp = piece.with_color(oc);
    let squares = position.occupied_by_piece(cp).squares();
    let ghost start = ints(out@);
    let ghost board_part = sorted_squares_of(spec_piece_set(position@.2, cp)).map_values(
        |sq: Square| spec_board_feature(wn.spec_index(), other, piece, spec_apply(symmetry, sq)),
    );
    let mut i: usize = 0;
    while i < squares.len()
        invariant
            i <= squares@.len(),
            squares@ == sorted_squares_of(spec_piece_set(position@.2, cp)),
            board_part == squares@.map_values(
                |sq: Square| spec_board_feature(wn.spec_index(), other, piece, spec_apply(symmetry, sq)),
            ),
            ints(out@) == start + board_part.subrange(0, i as int),
        decreases squares@.len() - i,
    {
        let f = WPSFeatures::board_feature(wn, other, piece, symmetry.apply(squares[i]));
        proof {
            lemma_ints_push(out@, f);
        }
        out.push(f);
        proof {
            assert(board_part.subrange(0, i + 1) =~= board_part.subrange(0, i as int).push(board_part[i as int]));
            assert(ints(out@) =~= start + board_part.subrange(0, i + 1));
        }
        i = i + 1;
    }
    assert(board_part.subrange(0, squares@.len() as int) =~= board_part);
    let num: usize = match piece {
        Piece::Wazir => 0,
        _ => position.num_captured(cp),
    };
    let ghost mid = ints(out@);
    let ghost cap_part = Seq::new(num as nat, |k: int| spec_captured_feature(wn.spec_index(), other, piece, k));
    let mut k: usize = 0;
    while k < num
        invariant
            k <= num <= 16,
            cap_part == Seq::new(num as nat, |k: int| spec_captured_feature(wn.spec_index(), other, piece, k)),
            ints(out@) == mid + cap_part.subrange(0, k as int),
        decreases num - k,
    {
        let f = WPSFeatures::captured_feature(wn, other, piece, k);
        proof {
            lemma_ints_push(out@, f);
        }
        out.push(f);
        proof {
            assert(ints(out@) =~= mid + cap_part.subrange(0, k + 1));
        }
        k = k + 1;
    }
    proof {
        assert(cap_part.subrange(0, num as int) =~= cap_part);
        assert(num == if piece == Piece::Wazir {
            0
        } else {
            position@.3[cp.spec_index() as int]
        });
        assert(ints(out@) =~= start + spec_piece_features(position@, symmetry, wn.spec_index(), other, oc, piece));
    }
}

/// Appends the features of one color's pieces.
fn push_side_features(out: &mut Vec<usize>, position: &Position, symmetry: Symmetry, wn: NormalizedSquare, other: bool, oc: Color)
    ensures
        ints(final(out)@) == ints(old(out)@) + spec_side_features(position@, symmetry, wn.spec_index(), other, oc),
{
    push_piece_features(out, position, symmetry, wn, other, oc, Piece::Alfil);
    push_piece_features(out, position, symmetry, wn, other, oc, Piece::Dabbaba);
    push_piece_features(out, position, symmetry, wn, other, oc, Piece::Ferz);
    push_piece_features(out, position, symmetry, wn, other, oc, Piece::Knight);
    if other {
        push_piece_features(out, position, symmetry, wn, other, oc, Piece::Wazir);
    }
    proof {
        assert(ints(out@) =~= ints(old(out)@) + spec_side_features(position@, symmetry, wn.spec_index(), other, oc));
    }
}

impl WPSFeatures {
    /// The number of features.
    pub fn count(self) -> (r: usize)
        ensures
            r == WPS_COUNT,
    {
        WPS_COUNT
    }

    /// The feature of a piece on a square, for a wazir on a normalized square.
    pub fn board_feature(wazir_square: NormalizedSquare, is_other_color: bool, piece: Piece, square: Square) -> (r: usize)
        ensures
            r == spec_board_feature(wazir_square.spec_index(), is_other_color, piece, square),
            r < WPS_COUNT,
    {
        let other: usize = if is_other_color {
            4
        } else {
            0
        };
        wazir_square.index() * WPS_COUNT_PER_WAZIR + (other + piece.index()) * 64 + square.index()
    }

    /// The feature of the `index`-th captured piece of a kind.
    pub fn captured_feature(wazir_square: NormalizedSquare, is_other_color: bool, piece: Piece, index: usize) -> (r: usize)
        requires
            spec_captured_feature(wazir_square.spec_index(), is_other_color, piece, index as int) <= usize::MAX,
        ensures
            r == spec_captured_feature(wazir_square.spec_index(), is_other_color, piece, index as int),
    {
        let other: usize = if is_other_color {
            30
        } else {
            0
        };
        wazir_square.index() * WPS_COUNT_PER_WAZIR + WPS_CAPTURED_OFFSET + other + captured_index(piece, index)
    }

    /// All features of the position for `color`.
    pub fn all(self, position: &Position, color: Color) -> (r: Vec<usize>)
        ensures
            ints(r@) == spec_all_features(position@, color),
    {
        let wazirs = position.occupied_by_piece(Piece::Wazir.with_color(color)).squares();
        let mut out: Vec<usize> = Vec::new();
        let mut i: usize = 0;
        while i < wazirs.len()
            invariant
                i <= wazirs@.len(),
                wazirs@ == sorted_squares_of(spec_piece_set(position@.2, ColoredPiece::spec_new(Piece::Wazir, color))),
                ints(out@) == spec_features_for(position@, color, wazirs@.subrange(0, i as int)),
            decreases wazirs@.len() - i,
        {
            let w = wazirs[i];
            let (symmetry, wn) = Symmetry::normalize(w);
            let ghost before = ints(out@);
            push_side_features(&mut out, position, symmetry, wn, false, color);
            push_side_features(&mut out, position, symmetry, wn, true, color.opposite());
            proof {
                let ws = wazirs@.subrange(0, i + 1);
                assert(ws.drop_last() =~= wazirs@.subrange(0, i as int));
                assert(ws.last() == w);
                assert(ints(out@) =~= spec_features_for(position@, color, ws));
            }
            i = i + 1;
        }
        assert(wazirs@.subrange(0, wazirs@.len() as int) =~= wazirs@);
        out
    }

    /// The features that a blue setup move adds, seen from red: each piece placed, as an
    /// opponent piece. `None` for other setups.
    pub fn diff_setup(self, mov: SetupMove, new_position: &Position, color: Color) -> (r: Option<
        (Vec<usize>, Vec<usize>),
    >)
        requires
            color == Color::Red && mov.color == Color::Blue ==> spec_has_wazir(new_position@, color),
        ensures
            !(color == Color::Red && mov.color == Color::Blue) ==> r is None,
            color == Color::Red && mov.color == Color::Blue ==> (r matches Some((added, removed)) && ints(
                added@,
            ) == spec_diff_setup_added(new_position@, mov, color) && removed@.len() == 0),
    {
        match (color, mov.color) {
            (Color::Red, Color::Blue) => {},
            _ => {
                return None;
            },
        }
        let wazir_square = match new_position.wazir_square(color) {
            Some(w) => w,
            None => {
                return None;
            },
        };
        let (symmetry, wazir_nsquare) = Symmetry::normalize(wazir_square);
        let mov_symmetry = Symmetry::pov(mov.color);
        let ghost target = Seq::new(
            16,
            |i: int|
                spec_board_feature(
                    wazir_nsquare.spec_index(),
                    true,
                    mov.pieces@[i],
                    spec_apply(symmetry, spec_apply(Symmetry::Rotate180, Square::spec_from_index(i))),
                ),
        );
        let mut added: Vec<usize> = Vec::new();
        let mut index: usize = 0;
        while index < SETUP_MOVE_SIZE
            invariant
                index <= 16,
                mov_symmetry == Symmetry::Rotate180,
                ints(added@) == target.subrange(0, index as int),
                target == Seq::new(
                    16,
                    |i: int|
                        spec_board_feature(
                            wazir_nsquare.spec_index(),
                            true,
                            mov.pieces@[i],
                            spec_apply(symmetry, spec_apply(Symmetry::Rotate180, Square::spec_from_index(i))),
                        ),
                ),
            decreases 16 - index,
        {
            let square = mov_symmetry.apply(Square::from_index(index));
            let f = WPSFeatures::board_feature(wazir_nsquare, true, mov.pieces[index], symmetry.apply(square));
            proof {
                lemma_ints_push(added@, f);
            }
            added.push(f);
            proof {
                assert(ints(added@) =~= target.subrange(0, index + 1));
            }
            index = index + 1;
        }
        assert(target.subrange(0, 16) =~= target);
        Some((added, Vec::new()))
    }

    /// The features that a regular move adds and removes, for `color`'s evaluation: the
    /// moving piece leaves its square (or the hand) and lands on the target; a captured
    /// piece leaves the board and joins the hand of the capturer. `None` when `color`'s
    /// wazir moves or is captured, which changes every feature.
    #[verifier::rlimit(60)]
    #[verifier::spinoff_prover]
    pub fn diff_regular(self, mov: RegularMove, new_position: &Position, color: Color) -> (r: Option<
        (Vec<usize>, Vec<usize>),
    >)
        requires
            !(mov.colored_piece == ColoredPiece::spec_new(Piece::Wazir, color) || (
            mov.colored_piece.spec_color() != color && mov.captured == Some(Piece::Wazir)))
                ==> spec_has_wazir(new_position@, color),
            (mov.captured matches Some(p) && p != Piece::Wazir && new_position@.3[ColoredPiece::spec_new(
                p,
                mov.colored_piece.spec_color(),
            ).spec_index() as int] == 0) ==> mov.colored_piece == ColoredPiece::spec_new(Piece::Wazir, color),
        ensures
            (mov.colored_piece == ColoredPiece::spec_new(Piece::Wazir, color) || (
            mov.colored_piece.spec_color() != color && mov.captured == Some(Piece::Wazir)))
                <==> r is None,
            match r {
                None => spec_diff_regular(new_position@, mov, color) is None,
                Some((added, removed)) => spec_diff_regular(new_position@, mov, color) == Some(
                    (ints(added@), ints(removed@)),
                ),
            },
    {
        let own_wazir = Piece::Wazir.with_color(color);
        if mov.colored_piece == own_wazir {
            return None;
        }
        let mov_color = mov.colored_piece.color();
        let is_opp_move = match (mov_color, color) {
            (Color::Red, Color::Red) | (Color::Blue, Color::Blue) => false,
            _ => true,
        };
        if is_opp_move {
            match mov.captured {
                Some(Piece::Wazir) => {
                    return None;
                },
                _ => {},
            }
        }
        let wazir_square = match new_position.wazir_square(color) {
            Some(w) => w,
            None => {
                return None;
            },
        };
        let (symmetry, wazir_nsquare) = Symmetry::normalize(wazir_square);
        let piece = mov.colored_piece.piece();
        let mut added: Vec<usize> = Vec::new();
        let mut removed: Vec<usize> = Vec::new();
        let source = match mov.from {
            Some(from) => WPSFeatures::board_feature(wazir_nsquare, is_opp_move, piece, symmetry.apply(from)),
            None => {
                let n = new_position.num_captured(mov.colored_piece);
                WPSFeatures::captured_feature(wazir_nsquare, is_opp_move, piece, n)
            },
        };
        removed.push(source);
        let landing = WPSFeatures::board_feature(wazir_nsquare, is_opp_move, piece, symmetry.apply(mov.to));
        added.push(landing);
        match mov.captured {
            Some(captured_piece) => {
                removed.push(
                    WPSFeatures::board_feature(wazir_nsquare, !is_opp_move, captured_piece, symmetry.apply(mov.to)),
                );
                match captured_piece {
                    Piece::Wazir => {},
                    _ => {
                        let n = new_position.num_captured(captured_piece.with_color(mov_color));
                        added.push(WPSFeatures::captured_feature(wazir_nsquare, is_opp_move, captured_piece, n - 1));
                    },
                }
            },
            None => {},
        }
        proof {
            assert(ints(removed@) =~= match mov.captured {
                None => seq![source as int],
                Some(c) => seq![source as int, removed@[1] as int],
            });
            assert(ints(added@) =~= match mov.captured {
                Some(c) => if c != Piece::Wazir {
                    seq![landing as int, added@[1] as int]
                } else {
                    seq![landing as int]
                },
                None => seq![landing as int],
            });
        }
        Some((added, removed))
    }
}

} // verus!
