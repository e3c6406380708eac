use crate::bitboard::Bitboard;
use crate::color::Color;
use crate::moves::{InvalidMove, RegularMove};
use crate::piece::{group_piece, spec_directions, ColoredPiece, Piece};
use crate::board::{count_piece_below, spec_color_set, spec_count_piece, spec_empty_set, spec_piece_set};
use crate::moves::{spec_short_of_move, spec_valid_pieces, Move, ShortMove, ShortMoveFrom};
use crate::captured::spec_total_count;
use crate::piece::spec_initial_count;
use crate::position::{
    lemma_count_one, lemma_no_captured_wazir, lemma_regular_step_valid, lemma_wazir_unique, spec_has_wazir, spec_regular_legal, spec_regular_step,
    spec_setup_legal, spec_the_wazir, spec_to_move, spec_total_in_game, spec_valid, spec_wazir, spec_win, step_b1,
    step_b2, Position, PositionView, Stage,
};
use crate::square::{group_square, lemma_square_index_injective, spec_square_add, sq_x, sq_y, Square};
pub use crate::setups::{setup_moves, SetupMoveIterator};
use vstd::prelude::*;

verus! {

broadcast use {group_square, group_piece};

/// A piece on `from` can leap to `to`.
pub open spec fn spec_reaches(piece: Piece, from: Square, to: Square) -> bool {
    exists|i: int|
        0 <= i < spec_directions(piece).len() && #[trigger] spec_square_add(
            from.spec_index() as int,
            spec_directions(piece)[i].0,
            spec_directions(piece)[i].1,
        ) == Some(to)
}

/// The squares a piece on `from` can leap to.
pub open spec fn spec_move_set(piece: Piece, from: Square) -> Set<Square> {
    Set::new(|to: Square| spec_reaches(piece, from, to))
}

/// The squares a piece on `from` reaches in two leaps (back to `from` included).
pub open spec fn spec_double_move_set(piece: Piece, from: Square) -> Set<Square> {
    Set::new(|to: Square| exists|mid: Square| #[trigger] spec_reaches(piece, from, mid) && spec_reaches(piece, mid, to))
}

/// The squares a piece on `from` reaches in three leaps (single leaps included).
pub open spec fn spec_triple_move_set(piece: Piece, from: Square) -> Set<Square> {
    Set::new(
        |to: Square|
            exists|mid: Square| #[trigger] spec_double_move_set(piece, from).contains(mid) && spec_reaches(piece, mid, to),
    )
}

/// The squares a piece reaches in one leap from a square next to `from`.
pub open spec fn spec_wazir_plus_move_set(piece: Piece, from: Square) -> Set<Square> {
    Set::new(
        |to: Square|
            exists|mid: Square| #[trigger] spec_reaches(Piece::Wazir, from, mid) && spec_reaches(piece, mid, to),
    )
}

/// The squares a piece reaches in two leaps from a square next to `from`.
pub open spec fn spec_wazir_plus_double_move_set(piece: Piece, from: Square) -> Set<Square> {
    Set::new(
        |to: Square|
            exists|mid: Square| #[trigger] spec_reaches(Piece::Wazir, from, mid) && spec_double_move_set(piece, mid).contains(to),
    )
}

/// The squares a piece on `square` can leap to.
pub fn move_bitboard(piece: Piece, square: Square) -> (r: Bitboard)
    ensures
        r@ == spec_move_set(piece, square),
{
    let directions = piece.directions();
    let mut r = Bitboard::empty();
    let mut i: usize = 0;
    while i < directions.len()
        invariant
            i <= directions@.len(),
            directions@.len() == spec_directions(piece).len(),
            forall|k: int|
                0 <= k < directions@.len() ==> (#[trigger] directions@[k].spec_x(), directions@[k].spec_y())
                    == spec_directions(piece)[k],
            forall|to: Square|
                r@.contains(to) <==> exists|k: int|
                    0 <= k < i && #[trigger] spec_square_add(
                        square.spec_index() as int,
                        spec_directions(piece)[k].0,
                        spec_directions(piece)[k].1,
                    ) == Some(to),
        decreases directions@.len() - i,
    {
        let d = directions[i];
        let ghost dk = (d.spec_x(), d.spec_y());
        assert(dk == spec_directions(piece)[i as int]);
        match square.add(d) {
            Some(to) => {
                r = r.union(Bitboard::single(to));
            },
            None => {},
        }
        proof {
            assert forall|to: Square|
                r@.contains(to) <==> exists|k: int|
                    0 <= k < i + 1 && #[trigger] spec_square_add(
                        square.spec_index() as int,
                        spec_directions(piece)[k].0,
                        spec_directions(piece)[k].1,
                    ) == Some(to) by {
                if spec_square_add(
                    square.spec_index() as int,
                    spec_directions(piece)[i as int].0,
                    spec_directions(piece)[i as int].1,
                ) == Some(to) {
                    assert(r@.contains(to));
                }
            }
        }
        i += 1;
    }
    proof {
        assert(r@ =~= spec_move_set(piece, square));
    }
    r
}

/// The union of the leap targets of a piece from each square of a set.
fn leaps_from_set(piece: Piece, from: Bitboard) -> (r: Bitboard)
    ensures
        forall|to: Square|
            r@.contains(to) <==> exists|mid: Square| #[trigger] from@.contains(mid) && spec_reaches(piece, mid, to),
{
    let squares = from.squares();
    let mut r = Bitboard::empty();
    let mut i: usize = 0;
    while i < squares.len()
        invariant
            i <= squares@.len(),
            forall|s: Square| squares@.contains(s) <==> from@.contains(s),
            forall|to: Square|
                r@.contains(to) <==> exists|k: int| 0 <= k < i && #[trigger] spec_reaches(piece, squares@[k], to),
        decreases squares@.len() - i,
    {
        let mid = squares[i];
        let m = move_bitboard(piece, mid);
        r = r.union(m);
        proof {
            assert forall|to: Square|
                r@.contains(to) <==> exists|k: int| 0 <= k < i + 1 && #[trigger] spec_reaches(piece, squares@[k], to) by {
                if spec_reaches(piece, squares@[i as int], to) {
                    assert(m@.contains(to));
                }
            }
        }
        i += 1;
    }
    proof {
        assert forall|to: Square|
            r@.contains(to) <==> exists|mid: Square| #[trigger] from@.contains(mid) && spec_reaches(piece, mid, to) by {
            if r@.contains(to) {
                let k = choose|k: int| 0 <= k < squares@.len() && #[trigger] spec_reaches(piece, squares@[k], to);
                assert(squares@.contains(squares@[k]));
                assert(from@.contains(squares@[k]));
            }
            if exists|mid: Square| #[trigger] from@.contains(mid) && spec_reaches(piece, mid, to) {
                let mid = choose|mid: Square| #[trigger] from@.contains(mid) && spec_reaches(piece, mid, to);
                assert(squares@.contains(mid));
                let k = choose|k: int| 0 <= k < squares@.len() && squares@[k] == mid;
                assert(spec_reaches(piece, squares@[k], to));
            }
        }
    }
    r
}

/// Two leaps of a piece; going back to the same square is included.
pub fn double_move_bitboard(piece: Piece, square: Square) -> (r: Bitboard)
    ensures
        r@ == spec_double_move_set(piece, square),
{
    let m = move_bitboard(piece, square);
    let r = leaps_from_set(piece, m);
    proof {
        assert forall|to: Square| r@.contains(to) == spec_double_move_set(piece, square).contains(to) by {
            if r@.contains(to) {
                let mid = choose|mid: Square| #[trigger] m@.contains(mid) && spec_reaches(piece, mid, to);
                assert(spec_reaches(piece, square, mid));
            }
            if spec_double_move_set(piece, square).contains(to) {
                let mid = choose|mid: Square| #[trigger] spec_reaches(piece, square, mid) && spec_reaches(piece, mid, to);
                assert(m@.contains(mid));
            }
        }
        assert(r@ =~= spec_double_move_set(piece, square));
    }
    r
}

/// Three leaps of a piece; single leaps are included.
pub fn triple_move_bitboard(piece: Piece, square: Square) -> (r: Bitboard)
    ensures
        r@ == spec_triple_move_set(piece, square),
{
    let m = double_move_bitboard(piece, square);
    let r = leaps_from_set(piece, m);
    proof {
        assert(r@ =~= spec_triple_move_set(piece, square));
    }
    r
}

/// A wazir step followed by a leap of the piece.
pub fn wazir_plus_move_bitboard(piece: Piece, square: Square) -> (r: Bitboard)
    ensures
        r@ == spec_wazir_plus_move_set(piece, square),
{
    let w = move_bitboard(Piece::Wazir, square);
    let r = leaps_from_set(piece, w);
    proof {
        assert forall|to: Square| r@.contains(to) == spec_wazir_plus_move_set(piece, square).contains(to) by {
            if r@.contains(to) {
                let mid = choose|mid: Square| #[trigger] w@.contains(mid) && spec_reaches(piece, mid, to);
                assert(spec_reaches(Piece::Wazir, square, mid));
            }
            if spec_wazir_plus_move_set(piece, square).contains(to) {
                let mid = choose|mid: Square| #[trigger] spec_reaches(Piece::Wazir, square, mid) && spec_reaches(piece, mid, to);
                assert(w@.contains(mid));
            }
        }
        assert(r@ =~= spec_wazir_plus_move_set(piece, square));
    }
    r
}

/// A wazir step followed by two leaps of the piece.
pub fn wazir_plus_double_move_bitboard(piece: Piece, square: Square) -> (r: Bitboard)
    ensures
        r@ == spec_wazir_plus_double_move_set(piece, square),
{
    let w = move_bitboard(Piece::Wazir, square);
    let squares = w.squares();
    let mut r = Bitboard::empty();
    let mut i: usize = 0;
    while i < squares.len()
        invariant
            i <= squares@.len(),
            forall|s: Square| squares@.contains(s) <==> w@.contains(s),
            forall|to: Square|
                r@.contains(to) <==> exists|k: int|
                    0 <= k < i && #[trigger] spec_double_move_set(piece, squares@[k]).contains(to),
        decreases squares@.len() - i,
    {
        let mid = squares[i];
        let m = double_move_bitboard(piece, mid);
        r = r.union(m);
        proof {
            assert forall|to: Square|
                r@.contains(to) <==> exists|k: int|
                    0 <= k < i + 1 && #[trigger] spec_double_move_set(piece, squares@[k]).contains(to) by {
                if spec_double_move_set(piece, squares@[i as int]).contains(to) {
                    assert(m@.contains(to));
                }
            }
        }
        i += 1;
    }
    proof {
        assert forall|to: Square|
            r@.contains(to) <==> spec_wazir_plus_double_move_set(piece, square).contains(to) by {
            if r@.contains(to) {
                let k = choose|k: int|
                    0 <= k < squares@.len() && #[trigger] spec_double_move_set(piece, squares@[k]).contains(to);
                assert(squares@.contains(squares@[k]));
                assert(spec_reaches(Piece::Wazir, square, squares@[k]));
            }
            if spec_wazir_plus_double_move_set(piece, square).contains(to) {
                let mid = choose|mid: Square|
                    #[trigger] spec_reaches(Piece::Wazir, square, mid) && spec_double_move_set(piece, mid).contains(to);
                assert(w@.contains(mid));
                assert(squares@.contains(mid));
                let k = choose|k: int| 0 <= k < squares@.len() && squares@[k] == mid;
                assert(spec_double_move_set(piece, squares@[k]).contains(to));
            }
        }
        assert(r@ =~= spec_wazir_plus_double_move_set(piece, square));
    }
    r
}

/// Checks that a piece can leap from `from` to `to`.
pub fn validate_from_to(piece: Piece, from: Square, to: Square) -> (r: Result<(), InvalidMove>)
    ensures
        r is Ok <==> spec_reaches(piece, from, to),
{
    if !move_bitboard(piece, from).contains(to) {
        return Err(InvalidMove);
    }
    Ok(())
}

/// Order key of a move generated by the generators below: origin, then target.
pub open spec fn move_key(m: RegularMove) -> int {
    match m.from {
        Some(f) => (f.spec_index() * 64 + m.to.spec_index()) as int,
        None => m.to.spec_index() as int,
    }
}

/// The moves are in strictly increasing key order, so no move repeats.
pub open spec fn spec_sorted_moves(moves: Seq<RegularMove>) -> bool {
    forall|a: int, b: int| 0 <= a < b < moves.len() ==> move_key(moves[a]) < move_key(moves[b])
}

/// Order key of a listed move: piece kind, then `move_key`.
pub open spec fn gen_key(m: RegularMove) -> int {
    m.colored_piece.spec_piece().spec_index() * 4096 + move_key(m)
}

/// The moves are in strictly increasing `gen_key` order: piece kind by piece kind, each by
/// origin and then target (drops by target). No move repeats.
pub open spec fn spec_gen_sorted(moves: Seq<RegularMove>) -> bool {
    forall|a: int, b: int| 0 <= a < b < moves.len() ==> gen_key(moves[a]) < gen_key(moves[b])
}

/// A move key is below 4096, and at least 0.
proof fn lemma_move_key_bound(m: RegularMove)
    ensures
        0 <= move_key(m) < 4096,
        m.colored_piece.spec_piece().spec_index() * 4096 <= gen_key(m)
            < m.colored_piece.spec_piece().spec_index() * 4096 + 4096,
{
    assert(m.to.spec_index() < 64);
    if m.from is Some {
        assert(m.from->0.spec_index() < 64);
    }
}

/// Two lists in key order, each key of the first below each key of the second, make one.
proof fn lemma_gen_sorted_concat(a: Seq<RegularMove>, b: Seq<RegularMove>)
    requires
        spec_gen_sorted(a),
        spec_gen_sorted(b),
        forall|i: int, j: int| 0 <= i < a.len() && 0 <= j < b.len() ==> gen_key(a[i]) < gen_key(b[j]),
    ensures
        spec_gen_sorted(a + b),
{
    assert forall|x: int, y: int| 0 <= x < y < (a + b).len() implies gen_key((a + b)[x]) < gen_key((a + b)[y]) by {
        if y < a.len() {
            assert((a + b)[x] == a[x] && (a + b)[y] == a[y]);
        } else if x < a.len() {
            assert((a + b)[x] == a[x] && (a + b)[y] == b[y - a.len()]);
        } else {
            assert((a + b)[x] == b[x - a.len()] && (a + b)[y] == b[y - a.len()]);
        }
    }
}

/// A list in key order is fixed by the moves it holds: two such lists with the same moves
/// are equal.
pub proof fn lemma_gen_sorted_unique(v1: Seq<RegularMove>, v2: Seq<RegularMove>)
    requires
        spec_gen_sorted(v1),
        spec_gen_sorted(v2),
        forall|m: RegularMove| v1.contains(m) <==> v2.contains(m),
    ensures
        v1 == v2,
    decreases v1.len(),
{
    if v1.len() == 0 {
        if v2.len() > 0 {
            assert(v2.contains(v2[0]));
        }
        assert(v1 =~= v2);
    } else {
        assert(v1.contains(v1[0]));
        assert(v2.len() > 0);
        assert(v2.contains(v2[0]));
        let k = choose|k: int| 0 <= k < v2.len() && v2[k] == v1[0];
        let j = choose|j: int| 0 <= j < v1.len() && v1[j] == v2[0];
        if k > 0 {
            if j > 0 {
                assert(gen_key(v2[0]) < gen_key(v2[k]));
                assert(gen_key(v1[0]) < gen_key(v1[j]));
            } else {
                assert(v1[0] == v2[0]);
                assert(gen_key(v2[0]) < gen_key(v2[k]));
            }
        }
        assert(v1[0] == v2[0]);
        let t1 = v1.drop_first();
        let t2 = v2.drop_first();
        assert forall|m: RegularMove| t1.contains(m) <==> t2.contains(m) by {
            if t1.contains(m) {
                let a = choose|a: int| 0 <= a < t1.len() && t1[a] == m;
                assert(v1[a + 1] == m);
                assert(gen_key(v1[0]) < gen_key(v1[a + 1]));
                assert(v1.contains(m));
                let b = choose|b: int| 0 <= b < v2.len() && v2[b] == m;
                assert(b != 0);
                assert(t2[b - 1] == m);
            }
            if t2.contains(m) {
                let a = choose|a: int| 0 <= a < t2.len() && t2[a] == m;
                assert(v2[a + 1] == m);
                assert(gen_key(v2[0]) < gen_key(v2[a + 1]));
                assert(v2.contains(m));
                let b = choose|b: int| 0 <= b < v1.len() && v1[b] == m;
                assert(b != 0);
                assert(t1[b - 1] == m);
            }
        }
        lemma_gen_sorted_unique(t1, t2);
        assert(v1 =~= v2) by {
            assert forall|i: int| 0 <= i < v1.len() implies v1[i] == v2[i] by {
                if i > 0 {
                    assert(v1[i] == t1[i - 1]);
                    assert(v2[i] == t2[i - 1]);
                }
            }
        }
    }
}

/// `m` moves a `piece` of the side to move from a square of `from_mask` to a square of
/// `to_mask` holding an opponent piece, and takes it.
pub open spec fn spec_is_capture(
    s: PositionView,
    piece: Piece,
    from_mask: Set<Square>,
    to_mask: Set<Square>,
    m: RegularMove,
) -> bool {
    let me = spec_to_move(s.1);
    let b = s.2;
    let to = m.to.spec_index() as int;
    &&& m.colored_piece == ColoredPiece::spec_new(piece, me)
    &&& m.from is Some
    &&& from_mask.contains(m.from->0)
    &&& b[m.from->0.spec_index() as int] == Some(m.colored_piece)
    &&& spec_reaches(piece, m.from->0, m.to)
    &&& to_mask.contains(m.to)
    &&& b[to] is Some
    &&& b[to]->0.spec_color() == me.spec_opposite()
    &&& m.captured == Some(b[to]->0.spec_piece())
}

/// `m` moves a `piece` of the side to move from a square of `from_mask` to an empty square
/// of `to_mask`.
pub open spec fn spec_is_jump(
    s: PositionView,
    piece: Piece,
    from_mask: Set<Square>,
    to_mask: Set<Square>,
    m: RegularMove,
) -> bool {
    let me = spec_to_move(s.1);
    let b = s.2;
    &&& m.colored_piece == ColoredPiece::spec_new(piece, me)
    &&& m.from is Some
    &&& from_mask.contains(m.from->0)
    &&& b[m.from->0.spec_index() as int] == Some(m.colored_piece)
    &&& spec_reaches(piece, m.from->0, m.to)
    &&& to_mask.contains(m.to)
    &&& b[m.to.spec_index() as int] is None
    &&& m.captured is None
}

/// `m` drops a held `piece` of the side to move on an empty square of `to_mask`.
pub open spec fn spec_is_drop(s: PositionView, piece: Piece, to_mask: Set<Square>, m: RegularMove) -> bool {
    let me = spec_to_move(s.1);
    &&& m.colored_piece == ColoredPiece::spec_new(piece, me)
    &&& m.from is None
    &&& m.captured is None
    &&& s.3[m.colored_piece.spec_index() as int] > 0
    &&& to_mask.contains(m.to)
    &&& s.2[m.to.spec_index() as int] is None
}

/// The square index bounding the first `i` entries of a sorted list of squares.
pub open spec fn sq_bound(v: Seq<Square>, i: int) -> int {
    if 0 <= i < v.len() {
        v[i].spec_index() as int
    } else {
        64
    }
}

/// Strictly increasing square indices.
pub open spec fn sorted_squares(v: Seq<Square>) -> bool {
    forall|a: int, b: int| 0 <= a < b < v.len() ==> v[a].spec_index() < v[b].spec_index()
}

/// In a sorted list, a member between the `i`-th and the next bound is the `i`-th entry.
proof fn lemma_sorted_step(v: Seq<Square>, i: int, sq: Square)
    requires
        sorted_squares(v),
        0 <= i < v.len(),
        v.contains(sq),
        sq_bound(v, i) <= sq.spec_index() < sq_bound(v, i + 1),
    ensures
        sq == v[i],
{
    let k = choose|k: int| 0 <= k < v.len() && v[k] == sq;
    if k < i {
        assert(v[k].spec_index() < v[i].spec_index());
    } else if k > i {
        if k > i + 1 {
            assert(v[i + 1].spec_index() < v[k].spec_index());
        }
    }
    lemma_square_index_injective(sq, v[i]);
}

/// No member of a sorted list lies below its first bound.
proof fn lemma_sorted_first(v: Seq<Square>, sq: Square)
    requires
        sorted_squares(v),
        v.contains(sq),
    ensures
        sq.spec_index() >= sq_bound(v, 0),
{
    let k = choose|k: int| 0 <= k < v.len() && v[k] == sq;
    if k > 0 {
        assert(v[0].spec_index() < v[k].spec_index());
    }
}

/// The squares a move may land on: opponent pieces for captures, empty squares for jumps.
pub open spec fn spec_target_set(s: PositionView, capture: bool) -> Set<Square> {
    if capture {
        spec_color_set(s.2, spec_to_move(s.1).spec_opposite())
    } else {
        spec_empty_set(s.2)
    }
}

/// A capture (or, with `capture` false, a jump) of a piece kind between two sets of squares.
pub open spec fn spec_is_piece_move(
    s: PositionView,
    piece: Piece,
    from_mask: Set<Square>,
    to_mask: Set<Square>,
    capture: bool,
    m: RegularMove,
) -> bool {
    if capture {
        spec_is_capture(s, piece, from_mask, to_mask, m)
    } else {
        spec_is_jump(s, piece, from_mask, to_mask, m)
    }
}

/// Captures (or, with `capture` false, jumps) by one piece kind between two sets of
/// squares, in (origin, target) order.
fn piece_moves_masks(
    position: &Position,
    piece: Piece,
    from_mask: Bitboard,
    to_mask: Bitboard,
    capture: bool,
) -> (r: Vec<RegularMove>)
    ensures
        forall|m: RegularMove| r@.contains(m) <==> spec_is_piece_move(position@, piece, from_mask@, to_mask@, capture, m),
        spec_sorted_moves(r@),
        spec_gen_sorted(r@),
{
    let me = position.to_move();
    let opp = me.opposite();
    let colored_piece = piece.with_color(me);
    let from_bb = from_mask.intersection(position.occupied_by_piece(colored_piece));
    let targets_bb = if capture {
        position.occupied_by(opp)
    } else {
        position.empty_squares()
    };
    let to_bb = to_mask.intersection(targets_bb);
    let froms = from_bb.squares();
    let ghost s = position@;
    let mut r: Vec<RegularMove> = Vec::new();
    proof {
        assert forall|m: RegularMove| spec_is_piece_move(s, piece, from_mask@, to_mask@, capture, m) implies m.from->0.spec_index()
            >= sq_bound(froms@, 0) by {
            assert(from_bb@.contains(m.from->0));
            lemma_sorted_first(froms@, m.from->0);
        }
    }
    let mut i: usize = 0;
    while i < froms.len()
        invariant
            i <= froms@.len(),
            s == position@,
            me == spec_to_move(s.1),
            opp == me.spec_opposite(),
            colored_piece == ColoredPiece::spec_new(piece, me),
            forall|sq: Square| froms@.contains(sq) <==> from_bb@.contains(sq),
            sorted_squares(froms@),
            from_bb@ == from_mask@.intersect(spec_piece_set(s.2, colored_piece)),
            to_bb@ == to_mask@.intersect(spec_target_set(s, capture)),
            forall|m: RegularMove|
                r@.contains(m) <==> (spec_is_piece_move(s, piece, from_mask@, to_mask@, capture, m)
                    && m.from->0.spec_index() < sq_bound(froms@, i as int)),
            spec_sorted_moves(r@),
            forall|t: int| 0 <= t < r@.len() ==> move_key(r@[t]) < sq_bound(froms@, i as int) * 64,
        decreases froms@.len() - i,
    {
        let from = froms[i];
        let targets = move_bitboard(piece, from).intersection(to_bb);
        let tos = targets.squares();
        proof {
            assert forall|m: RegularMove| spec_is_piece_move(s, piece, from_mask@, to_mask@, capture, m) && m.from == Some(from)
                implies m.to.spec_index() >= sq_bound(tos@, 0) by {
                assert(targets@.contains(m.to));
                lemma_sorted_first(tos@, m.to);
            }
        }
        let mut j: usize = 0;
        while j < tos.len()
            invariant
                i < froms@.len(),
                from == froms@[i as int],
                j <= tos@.len(),
                s == position@,
                me == spec_to_move(s.1),
                opp == me.spec_opposite(),
                colored_piece == ColoredPiece::spec_new(piece, me),
                forall|sq: Square| froms@.contains(sq) <==> from_bb@.contains(sq),
                sorted_squares(froms@),
                from_bb@ == from_mask@.intersect(spec_piece_set(s.2, colored_piece)),
                forall|sq: Square| tos@.contains(sq) <==> targets@.contains(sq),
                sorted_squares(tos@),
                targets@ == spec_move_set(piece, from).intersect(to_bb@),
                to_bb@ == to_mask@.intersect(spec_target_set(s, capture)),
                forall|m: RegularMove|
                    r@.contains(m) <==> (spec_is_piece_move(s, piece, from_mask@, to_mask@, capture, m) && (
                    m.from->0.spec_index() < from.spec_index() || (m.from == Some(from)
                        && m.to.spec_index() < sq_bound(tos@, j as int)))),
                spec_sorted_moves(r@),
                forall|t: int|
                    0 <= t < r@.len() ==> move_key(r@[t]) < from.spec_index() * 64 + sq_bound(tos@, j as int),
            decreases tos@.len() - j,
        {
            let to = tos[j];
            let captured = if capture {
                match position.square(to) {
                    Some(cp) => Some(cp.piece()),
                    None => None,
                }
            } else {
                None
            };
            let m = RegularMove { colored_piece, from: Some(from), captured, to };
            let ghost r0 = r@;
            proof {
                assert(froms@.contains(from));
                assert(tos@.contains(to));
                assert(spec_is_piece_move(s, piece, from_mask@, to_mask@, capture, m));
            }
            r.push(m);
            proof {
                assert forall|mm: RegularMove|
                    r@.contains(mm) <==> (spec_is_piece_move(s, piece, from_mask@, to_mask@, capture, mm) && (
                    mm.from->0.spec_index() < from.spec_index() || (mm.from == Some(from)
                        && mm.to.spec_index() < sq_bound(tos@, j + 1)))) by {
                    if r@.contains(mm) && mm != m {
                        let t = choose|t: int| 0 <= t < r@.len() && r@[t] == mm;
                        assert(r0[t] == mm);
                        assert(r0.contains(mm));
                    }
                    if r0.contains(mm) {
                        let t = choose|t: int| 0 <= t < r0.len() && r0[t] == mm;
                        assert(r@[t] == mm);
                    }
                    if spec_is_piece_move(s, piece, from_mask@, to_mask@, capture, mm) && mm.from == Some(from)
                        && sq_bound(tos@, j as int) <= mm.to.spec_index() < sq_bound(tos@, j + 1) {
                        assert(targets@.contains(mm.to));
                        lemma_sorted_step(tos@, j as int, mm.to);
                        assert(mm == m);
                    }
                    if mm == m {
                        assert(r@[r@.len() - 1] == m);
                    }
                }
                assert forall|a: int, b: int| 0 <= a < b < r@.len() implies move_key(r@[a]) < move_key(r@[b]) by {
                    if b < r@.len() - 1 {
                        assert(r@[a] == r0[a] && r@[b] == r0[b]);
                    } else {
                        assert(r@[a] == r0[a]);
                    }
                }
                if j + 1 < tos@.len() {
                    assert(tos@[j as int].spec_index() < tos@[j + 1].spec_index());
                }
                assert(to.spec_index() < 64);
            }
            j += 1;
        }
        proof {
            assert forall|m: RegularMove|
                r@.contains(m) <==> (spec_is_piece_move(s, piece, from_mask@, to_mask@, capture, m)
                    && m.from->0.spec_index() < sq_bound(froms@, i + 1)) by {
                if spec_is_piece_move(s, piece, from_mask@, to_mask@, capture, m) {
                    let f = m.from->0;
                    assert(from_bb@.contains(f));
                    assert(froms@.contains(f));
                    if sq_bound(froms@, i as int) <= f.spec_index() < sq_bound(froms@, i + 1) {
                        lemma_sorted_step(froms@, i as int, f);
                    }
                    if f == from {
                        assert(m.to.spec_index() < 64);
                    }
                }
            }
            if i + 1 < froms@.len() {
                assert(froms@[i as int].spec_index() < froms@[i + 1].spec_index());
            }
            assert(from.spec_index() < 64);
        }
        i += 1;
    }
    proof {
        assert forall|m: RegularMove| r@.contains(m) <==> spec_is_piece_move(position@, piece, from_mask@, to_mask@, capture, m) by {
            if spec_is_piece_move(s, piece, from_mask@, to_mask@, capture, m) {
                assert(m.from->0.spec_index() < 64);
            }
        }
        assert forall|a: int, b: int| 0 <= a < b < r@.len() implies gen_key(r@[a]) < gen_key(r@[b]) by {
            assert(r@.contains(r@[a]));
            assert(r@.contains(r@[b]));
        }
    }
    r
}

/// A move is in a concatenation exactly when it is in one of the parts.
pub proof fn lemma_concat_contains(a: Seq<RegularMove>, b: Seq<RegularMove>, x: RegularMove)
    ensures
        (a + b).contains(x) <==> (a.contains(x) || b.contains(x)),
{
    if (a + b).contains(x) {
        let k = choose|k: int| 0 <= k < (a + b).len() && (a + b)[k] == x;
        if k < a.len() {
            assert(a[k] == x);
        } else {
            assert(b[k - a.len()] == x);
        }
    }
    if a.contains(x) {
        let k = choose|k: int| 0 <= k < a.len() && a[k] == x;
        assert((a + b)[k] == x);
    }
    if b.contains(x) {
        let k = choose|k: int| 0 <= k < b.len() && b[k] == x;
        assert((a + b)[k + a.len()] == x);
    }
}

/// The negated leap of the `i`-th leap of a piece is its `len - 1 - i`-th leap.
proof fn lemma_direction_negation(piece: Piece, i: int)
    requires
        0 <= i < spec_directions(piece).len(),
    ensures
        spec_directions(piece)[spec_directions(piece).len() - 1 - i].0 == -spec_directions(piece)[i].0,
        spec_directions(piece)[spec_directions(piece).len() - 1 - i].1 == -spec_directions(piece)[i].1,
{
}

/// Leaps are symmetric: a piece reaches `b` from `a` exactly when it reaches `a` from `b`.
pub proof fn lemma_reaches_symmetric(piece: Piece, a: Square, b: Square)
    ensures
        spec_reaches(piece, a, b) == spec_reaches(piece, b, a),
{
    assert forall|x: Square, y: Square| spec_reaches(piece, x, y) implies spec_reaches(piece, y, x) by {
        let d = spec_directions(piece);
        let i = choose|i: int|
            0 <= i < d.len() && #[trigger] spec_square_add(x.spec_index() as int, d[i].0, d[i].1) == Some(y);
        let j = d.len() - 1 - i;
        lemma_direction_negation(piece, i);
        let xi = x.spec_index() as int;
        let yi = y.spec_index() as int;
        assert(yi == (xi / 8 + d[i].1) * 8 + (xi % 8 + d[i].0));
        assert(yi % 8 == xi % 8 + d[i].0);
        assert(yi / 8 == xi / 8 + d[i].1);
        assert(spec_square_add(yi, d[j].0, d[j].1) == Some(x));
    }
}

/// Which squares moves start from and land on, relative to the opponent's wazir `w`.
#[derive(Debug, Clone, Copy, PartialEq, Eq, Structural)]
pub enum MaskKind {
    /// Every move.
    All,
    /// Moves that attack `w`.
    Checks,
    /// Moves that do not attack `w`.
    NonChecks,
    /// Moves that attack a square from which `w` could be attacked next move.
    CheckThreats,
    /// Moves that neither attack `w` nor threaten to.
    Boring,
}

/// Origin squares allowed for moves of a kind.
pub open spec fn spec_from_mask(kind: MaskKind, piece: Piece, w: Square) -> Set<Square> {
    match kind {
        MaskKind::Checks => spec_double_move_set(piece, w),
        MaskKind::CheckThreats => spec_triple_move_set(piece, w),
        _ => Set::full(),
    }
}

/// Target squares allowed for moves of a kind.
pub open spec fn spec_to_mask(kind: MaskKind, piece: Piece, w: Square) -> Set<Square> {
    match kind {
        MaskKind::All => Set::full(),
        MaskKind::Checks => spec_move_set(piece, w),
        MaskKind::NonChecks => spec_move_set(piece, w).complement(),
        MaskKind::CheckThreats => spec_double_move_set(piece, w),
        MaskKind::Boring => spec_move_set(piece, w).union(spec_double_move_set(piece, w)).complement(),
    }
}

fn masks(kind: MaskKind, piece: Piece, w: Square) -> (r: (Bitboard, Bitboard))
    ensures
        r.0@ == spec_from_mask(kind, piece, w),
        r.1@ == spec_to_mask(kind, piece, w),
{
    match kind {
        MaskKind::All => (Bitboard::all(), Bitboard::all()),
        MaskKind::Checks => (double_move_bitboard(piece, w), move_bitboard(piece, w)),
        MaskKind::NonChecks => (Bitboard::all(), move_bitboard(piece, w).complement()),
        MaskKind::CheckThreats => (triple_move_bitboard(piece, w), double_move_bitboard(piece, w)),
        MaskKind::Boring => (
            Bitboard::all(),
            move_bitboard(piece, w).union(double_move_bitboard(piece, w)).complement(),
        ),
    }
}

/// A capture or jump of the side to move, of the given kind relative to `w`.
pub open spec fn spec_is_kind_move(s: PositionView, kind: MaskKind, w: Square, capture: bool, m: RegularMove) -> bool {
    let piece = m.colored_piece.spec_piece();
    spec_is_piece_move(s, piece, spec_from_mask(kind, piece, w), spec_to_mask(kind, piece, w), capture, m)
}

/// Captures or jumps of the given kind by every piece kind (the wazir only if asked).
fn piece_moves_kind(position: &Position, kind: MaskKind, w: Square, capture: bool, include_wazir: bool) -> (r: Vec<
    RegularMove,
>)
    ensures
        forall|m: RegularMove|
            r@.contains(m) <==> (spec_is_kind_move(position@, kind, w, capture, m) && (include_wazir
                || m.colored_piece.spec_piece() != Piece::Wazir)),
        spec_gen_sorted(r@),
{
    let ghost s = position@;
    let n: usize = if include_wazir {
        5
    } else {
        4
    };
    let mut r: Vec<RegularMove> = Vec::new();
    let mut j: usize = 0;
    while j < n
        invariant
            j <= n,
            n == if include_wazir {
                5usize
            } else {
                4usize
            },
            s == position@,
            forall|m: RegularMove|
                r@.contains(m) <==> (spec_is_kind_move(s, kind, w, capture, m)
                    && m.colored_piece.spec_piece().spec_index() < j),
            spec_gen_sorted(r@),
        decreases n - j,
    {
        let piece = Piece::from_index(j);
        let (fm, tm) = masks(kind, piece, w);
        let mut v = piece_moves_masks(position, piece, fm, tm, capture);
        let ghost r0 = r@;
        let ghost v0 = v@;
        r.append(&mut v);
        proof {
            assert forall|a: int, b: int| 0 <= a < r0.len() && 0 <= b < v0.len() implies gen_key(r0[a]) < gen_key(v0[b]) by {
                assert(r0.contains(r0[a]));
                assert(v0.contains(v0[b]));
                lemma_move_key_bound(r0[a]);
            }
            lemma_gen_sorted_concat(r0, v0);
            assert forall|m: RegularMove|
                r@.contains(m) <==> (spec_is_kind_move(s, kind, w, capture, m)
                    && m.colored_piece.spec_piece().spec_index() < j + 1) by {
                lemma_concat_contains(r0, v0, m);
                if v0.contains(m) {
                    assert(m.colored_piece.spec_piece() == piece);
                }
                if spec_is_kind_move(s, kind, w, capture, m) && m.colored_piece.spec_piece().spec_index() == j {
                    assert(m.colored_piece.spec_piece() == piece);
                }
            }
        }
        j += 1;
    }
    r
}

/// A drop of the side to move onto the target squares of a kind relative to `w`.
pub open spec fn spec_is_kind_drop(s: PositionView, kind: MaskKind, w: Square, m: RegularMove) -> bool {
    let piece = m.colored_piece.spec_piece();
    &&& piece != Piece::Wazir
    &&& spec_is_drop(s, piece, spec_to_mask(kind, piece, w), m)
}

/// Drops of one piece kind onto a set of squares, in target order.
fn drops_piece_to_mask(position: &Position, piece: Piece, to_mask: Bitboard) -> (r: Vec<RegularMove>)
    ensures
        forall|m: RegularMove| r@.contains(m) <==> spec_is_drop(position@, piece, to_mask@, m),
        spec_gen_sorted(r@),
{
    let ghost s = position@;
    let me = position.to_move();
    let colored_piece = piece.with_color(me);
    let targets = if position.num_captured(colored_piece) > 0 {
        position.empty_squares().intersection(to_mask)
    } else {
        Bitboard::empty()
    };
    let tos = targets.squares();
    let mut r: Vec<RegularMove> = Vec::new();
    let mut j: usize = 0;
    while j < tos.len()
        invariant
            j <= tos@.len(),
            s == position@,
            colored_piece == ColoredPiece::spec_new(piece, spec_to_move(s.1)),
            forall|sq: Square| tos@.contains(sq) <==> targets@.contains(sq),
            targets@ == if s.3[colored_piece.spec_index() as int] > 0 {
                spec_empty_set(s.2).intersect(to_mask@)
            } else {
                Set::<Square>::empty()
            },
            forall|m: RegularMove|
                r@.contains(m) <==> (spec_is_drop(s, piece, to_mask@, m) && exists|k: int|
                    0 <= k < j && m.to == #[trigger] tos@[k]),
            sorted_squares(tos@),
            r@.len() == j,
            forall|t: int| 0 <= t < j ==> (#[trigger] r@[t]).to == tos@[t] && r@[t].from is None
                && r@[t].colored_piece == colored_piece,
        decreases tos@.len() - j,
    {
        let to = tos[j];
        let m = RegularMove { colored_piece, from: None, captured: None, to };
        let ghost r0 = r@;
        r.push(m);
        proof {
            assert(tos@.contains(to));
            assert forall|mm: RegularMove|
                r@.contains(mm) <==> (spec_is_drop(s, piece, to_mask@, mm) && exists|k: int|
                    0 <= k < j + 1 && mm.to == #[trigger] tos@[k]) by {
                lemma_concat_contains(r0, seq![m], mm);
                assert(r@ == r0 + seq![m]);
                if seq![m].contains(mm) {
                    assert(mm == m);
                    assert(mm.to == tos@[j as int]);
                }
                if spec_is_drop(s, piece, to_mask@, mm) && mm.to == tos@[j as int] {
                    assert(mm == m);
                    assert(seq![m][0] == m);
                }
            }
            assert forall|t: int| 0 <= t < j + 1 implies (#[trigger] r@[t]).to == tos@[t] && r@[t].from is None
                && r@[t].colored_piece == colored_piece by {
                if t < j {
                    assert(r@[t] == r0[t]);
                }
            }
        }
        j += 1;
    }
    proof {
        assert forall|a: int, b: int| 0 <= a < b < r@.len() implies gen_key(r@[a]) < gen_key(r@[b]) by {
            assert(r@[a].to == tos@[a] && r@[b].to == tos@[b]);
        }
        assert forall|m: RegularMove| r@.contains(m) <==> spec_is_drop(s, piece, to_mask@, m) by {
            if spec_is_drop(s, piece, to_mask@, m) {
                assert(targets@.contains(m.to));
                assert(tos@.contains(m.to));
                let k = choose|k: int| 0 <= k < tos@.len() && tos@[k] == m.to;
                assert(m.to == tos@[k]);
            }
        }
    }
    r
}

/// Drops of every piece kind but the wazir onto the targets of a kind relative to `w`.
fn drops_kind(position: &Position, kind: MaskKind, w: Square) -> (r: Vec<RegularMove>)
    ensures
        forall|m: RegularMove| r@.contains(m) <==> spec_is_kind_drop(position@, kind, w, m),
        spec_gen_sorted(r@),
{
    let ghost s = position@;
    let mut r: Vec<RegularMove> = Vec::new();
    let mut j: usize = 0;
    while j < 4
        invariant
            j <= 4,
            s == position@,
            forall|m: RegularMove|
                r@.contains(m) <==> (spec_is_kind_drop(s, kind, w, m) && m.colored_piece.spec_piece().spec_index()
                    < j),
            spec_gen_sorted(r@),
        decreases 4 - j,
    {
        let piece = Piece::from_index(j);
        let (fm, tm) = masks(kind, piece, w);
        let mut v = drops_piece_to_mask(position, piece, tm);
        let ghost r0 = r@;
        let ghost v0 = v@;
        r.append(&mut v);
        proof {
            assert forall|a: int, b: int| 0 <= a < r0.len() && 0 <= b < v0.len() implies gen_key(r0[a]) < gen_key(v0[b]) by {
                assert(r0.contains(r0[a]));
                assert(v0.contains(v0[b]));
                lemma_move_key_bound(r0[a]);
                lemma_move_key_bound(v0[b]);
            }
            lemma_gen_sorted_concat(r0, v0);
            assert forall|m: RegularMove|
                r@.contains(m) <==> (spec_is_kind_drop(s, kind, w, m) && m.colored_piece.spec_piece().spec_index()
                    < j + 1) by {
                lemma_concat_contains(r0, v0, m);
                if v0.contains(m) {
                    assert(m.colored_piece.spec_piece() == piece);
                }
                if spec_is_kind_drop(s, kind, w, m) && m.colored_piece.spec_piece().spec_index() == j {
                    assert(m.colored_piece.spec_piece() == piece);
                }
            }
        }
        j += 1;
    }
    proof {
        assert forall|m: RegularMove| r@.contains(m) <==> spec_is_kind_drop(s, kind, w, m) by {
            if spec_is_kind_drop(s, kind, w, m) {
                assert(m.colored_piece.spec_piece().spec_index() < 4);
            }
        }
    }
    r
}

/// The squares of `color`'s pieces that attack `square`.
pub open spec fn spec_attackers(s: PositionView, square: Square, color: Color) -> Set<Square> {
    Set::new(
        |t: Square|
            s.2[t.spec_index() as int] is Some && s.2[t.spec_index() as int]->0.spec_color() == color
                && spec_reaches(s.2[t.spec_index() as int]->0.spec_piece(), t, square),
    )
}

/// The squares of `color`'s pieces that attack `square`.
pub fn attacked_by(position: &Position, square: Square, color: Color) -> (r: Bitboard)
    ensures
        r@ == spec_attackers(position@, square, color),
{
    let ghost s = position@;
    let mut res = Bitboard::empty();
    let mut j: usize = 0;
    while j < 5
        invariant
            j <= 5,
            s == position@,
            res@ == Set::new(
                |t: Square|
                    s.2[t.spec_index() as int] is Some && s.2[t.spec_index() as int]->0.spec_color() == color
                        && spec_reaches(s.2[t.spec_index() as int]->0.spec_piece(), t, square)
                        && s.2[t.spec_index() as int]->0.spec_piece().spec_index() < j,
            ),
        decreases 5 - j,
    {
        let piece = Piece::from_index(j);
        let cp = piece.with_color(color);
        let add = move_bitboard(piece, square).intersection(position.occupied_by_piece(cp));
        let ghost old_res = res@;
        res = res.union(add);
        proof {
            assert forall|t: Square|
                res@.contains(t) == (s.2[t.spec_index() as int] is Some && s.2[t.spec_index() as int]->0.spec_color()
                    == color && spec_reaches(s.2[t.spec_index() as int]->0.spec_piece(), t, square)
                    && s.2[t.spec_index() as int]->0.spec_piece().spec_index() < j + 1) by {
                lemma_reaches_symmetric(piece, t, square);
                if s.2[t.spec_index() as int] is Some {
                    let x = s.2[t.spec_index() as int]->0;
                    assert(ColoredPiece::spec_new(x.spec_piece(), x.spec_color()) == x);
                }
            }
            assert(res@ =~= Set::new(
                |t: Square|
                    s.2[t.spec_index() as int] is Some && s.2[t.spec_index() as int]->0.spec_color() == color
                        && spec_reaches(s.2[t.spec_index() as int]->0.spec_piece(), t, square)
                        && s.2[t.spec_index() as int]->0.spec_piece().spec_index() < j + 1,
            ));
        }
        j += 1;
    }
    proof {
        assert(res@ =~= spec_attackers(s, square, color));
    }
    res
}

/// Some piece of `color` attacks `square`.
pub fn is_attacked_by(position: &Position, square: Square, color: Color) -> (r: bool)
    ensures
        r == (spec_attackers(position@, square, color) != Set::<Square>::empty()),
{
    !attacked_by(position, square, color).is_empty()
}

/// `color`'s wazir is on the board and attacked.
pub open spec fn spec_in_check(s: PositionView, color: Color) -> bool {
    spec_has_wazir(s, color) && spec_attackers(s, spec_the_wazir(s, color), color.spec_opposite())
        != Set::<Square>::empty()
}

/// `color`'s wazir is attacked (false when it is not on the board).
pub fn in_check(position: &Position, color: Color) -> (r: bool)
    ensures
        r == spec_in_check(position@, color),
{
    match position.wazir_square(color) {
        None => false,
        Some(w) => is_attacked_by(position, w, color.opposite()),
    }
}

/// The moves of `v` whose target square no opponent piece attacks.
fn keep_safe_targets(position: &Position, v: Vec<RegularMove>) -> (r: Vec<RegularMove>)
    ensures
        forall|m: RegularMove|
            r@.contains(m) <==> (v@.contains(m) && spec_attackers(
                position@,
                m.to,
                spec_to_move(position@.1).spec_opposite(),
            ) == Set::<Square>::empty()),
        spec_gen_sorted(v@) ==> spec_gen_sorted(r@),
{
    let opp = position.to_move().opposite();
    let mut r: Vec<RegularMove> = Vec::new();
    let mut i: usize = 0;
    while i < v.len()
        invariant
            i <= v@.len(),
            opp == spec_to_move(position@.1).spec_opposite(),
            forall|m: RegularMove|
                r@.contains(m) <==> (exists|k: int| 0 <= k < i && #[trigger] v@[k] == m) && spec_attackers(
                    position@,
                    m.to,
                    opp,
                ) == Set::<Square>::empty(),
            spec_gen_sorted(v@) ==> spec_gen_sorted(r@),
        decreases v@.len() - i,
    {
        let m = v[i];
        if !is_attacked_by(position, m.to, opp) {
            let ghost r0 = r@;
            r.push(m);
            proof {
                if spec_gen_sorted(v@) {
                    assert forall|a: int, b: int| 0 <= a < b < r@.len() implies gen_key(r@[a]) < gen_key(r@[b]) by {
                        if b < r@.len() - 1 {
                            assert(r@[a] == r0[a] && r@[b] == r0[b]);
                        } else {
                            assert(r@[a] == r0[a]);
                            assert(r0.contains(r0[a]));
                            let k = choose|k: int| 0 <= k < i && #[trigger] v@[k] == r0[a];
                            assert(r@[b] == v@[i as int]);
                        }
                    }
                }
                assert forall|mm: RegularMove|
                    r@.contains(mm) <==> (exists|k: int| 0 <= k < i + 1 && #[trigger] v@[k] == mm) && spec_attackers(
                        position@,
                        mm.to,
                        opp,
                    ) == Set::<Square>::empty() by {
                    lemma_concat_contains(r0, seq![m], mm);
                    assert(r@ == r0 + seq![m]);
                    if seq![m].contains(mm) {
                        assert(v@[i as int] == mm);
                    }
                    if mm == m {
                        assert(seq![m][0] == m);
                    }
                }
            }
        } else {
            proof {
                assert forall|mm: RegularMove|
                    r@.contains(mm) <==> (exists|k: int| 0 <= k < i + 1 && #[trigger] v@[k] == mm) && spec_attackers(
                        position@,
                        mm.to,
                        opp,
                    ) == Set::<Square>::empty() by {
                    if mm == m {
                    }
                }
            }
        }
        i += 1;
    }
    proof {
        assert forall|m: RegularMove|
            r@.contains(m) <==> (v@.contains(m) && spec_attackers(position@, m.to, opp) == Set::<Square>::empty()) by {
            if v@.contains(m) {
                let k = choose|k: int| 0 <= k < v@.len() && v@[k] == m;
                assert(v@[k] == m);
            }
        }
    }
    r
}

/// The opponent's wazir.
fn opp_wazir_square(position: &Position) -> (r: Square)
    requires
        spec_has_wazir(position@, spec_to_move(position@.1).spec_opposite()),
    ensures
        r == spec_the_wazir(position@, spec_to_move(position@.1).spec_opposite()),
{
    match position.wazir_square(position.to_move().opposite()) {
        Some(w) => w,
        None => Square::A1,
    }
}

/// A capture of the side to move that the wazir makes onto a square no opponent piece attacks.
pub open spec fn spec_is_safe_wazir_move(s: PositionView, capture: bool, m: RegularMove) -> bool {
    &&& spec_is_piece_move(s, Piece::Wazir, Set::full(), Set::full(), capture, m)
    &&& spec_attackers(s, m.to, spec_to_move(s.1).spec_opposite()) == Set::<Square>::empty()
}

/// Captures by the wazir that do not land on an attacked square.
pub fn captures_by_wazir(position: &Position) -> (r: Vec<RegularMove>)
    ensures
        forall|m: RegularMove| r@.contains(m) <==> spec_is_safe_wazir_move(position@, true, m),
        spec_gen_sorted(r@),
{
    let v = piece_moves_masks(position, Piece::Wazir, Bitboard::all(), Bitboard::all(), true);
    keep_safe_targets(position, v)
}

/// Jumps by the wazir that do not land on an attacked square.
pub fn jumps_by_wazir(position: &Position) -> (r: Vec<RegularMove>)
    requires
        position@.0 == Stage::Regular,
    ensures
        forall|m: RegularMove| r@.contains(m) <==> spec_is_safe_wazir_move(position@, false, m),
        spec_gen_sorted(r@),
{
    let v = piece_moves_masks(position, Piece::Wazir, Bitboard::all(), Bitboard::all(), false);
    keep_safe_targets(position, v)
}

/// All captures, suicidal ones and ones that ignore a check included.
pub fn pseudocaptures(position: &Position) -> (r: Vec<RegularMove>)
    ensures
        forall|m: RegularMove|
            r@.contains(m) <==> spec_is_kind_move(position@, MaskKind::All, Square::A1, true, m),
        spec_gen_sorted(r@),
{
    piece_moves_kind(position, MaskKind::All, Square::A1, true, true)
}

/// All jumps, suicidal ones and ones that ignore a check included.
pub fn pseudojumps(position: &Position) -> (r: Vec<RegularMove>)
    requires
        position@.0 == Stage::Regular,
    ensures
        forall|m: RegularMove|
            r@.contains(m) <==> spec_is_kind_move(position@, MaskKind::All, Square::A1, false, m),
        spec_gen_sorted(r@),
{
    piece_moves_kind(position, MaskKind::All, Square::A1, false, true)
}

/// Moves of a kind by the pieces other than the wazir, followed by safe wazir moves.
fn kind_moves_then_wazir(position: &Position, kind: MaskKind, w: Square, capture: bool) -> (r: Vec<RegularMove>)
    requires
        capture || position@.0 == Stage::Regular,
    ensures
        forall|m: RegularMove|
            r@.contains(m) <==> ((spec_is_kind_move(position@, kind, w, capture, m)
                && m.colored_piece.spec_piece() != Piece::Wazir) || spec_is_safe_wazir_move(
                position@,
                capture,
                m,
            )),
        spec_gen_sorted(r@),
{
    let mut r = piece_moves_kind(position, kind, w, capture, false);
    let mut v = if capture {
        captures_by_wazir(position)
    } else {
        jumps_by_wazir(position)
    };
    let ghost r0 = r@;
    let ghost v0 = v@;
    r.append(&mut v);
    proof {
        assert forall|m: RegularMove| r@.contains(m) <==> ((spec_is_kind_move(position@, kind, w, capture, m)
            && m.colored_piece.spec_piece() != Piece::Wazir) || spec_is_safe_wazir_move(position@, capture, m)) by {
            lemma_concat_contains(r0, v0, m);
        }
        assert forall|a: int, b: int| 0 <= a < r0.len() && 0 <= b < v0.len() implies gen_key(r0[a]) < gen_key(v0[b]) by {
            assert(r0.contains(r0[a]));
            assert(v0.contains(v0[b]));
            lemma_move_key_bound(r0[a]);
            lemma_move_key_bound(v0[b]);
        }
        lemma_gen_sorted_concat(r0, v0);
    }
    r
}

/// Captures that are not suicides. Meant for a side that is not in check.
pub fn captures(position: &Position) -> (r: Vec<RegularMove>)
    ensures
        forall|m: RegularMove|
            r@.contains(m) <==> ((spec_is_kind_move(position@, MaskKind::All, Square::A1, true, m)
                && m.colored_piece.spec_piece() != Piece::Wazir) || spec_is_safe_wazir_move(
                position@,
                true,
                m,
            )),
        spec_gen_sorted(r@),
{
    kind_moves_then_wazir(position, MaskKind::All, Square::A1, true)
}

/// Jumps that are not suicides. Meant for a side that is not in check.
pub fn jumps(position: &Position) -> (r: Vec<RegularMove>)
    requires
        position@.0 == Stage::Regular,
    ensures
        forall|m: RegularMove|
            r@.contains(m) <==> ((spec_is_kind_move(position@, MaskKind::All, Square::A1, false, m)
                && m.colored_piece.spec_piece() != Piece::Wazir) || spec_is_safe_wazir_move(
                position@,
                false,
                m,
            )),
        spec_gen_sorted(r@),
{
    kind_moves_then_wazir(position, MaskKind::All, Square::A1, false)
}

/// Captures that give check.
pub fn captures_checks(position: &Position) -> (r: Vec<RegularMove>)
    requires
        spec_has_wazir(position@, spec_to_move(position@.1).spec_opposite()),
    ensures
        forall|m: RegularMove|
            r@.contains(m) <==> (spec_is_kind_move(
                position@,
                MaskKind::Checks,
                spec_the_wazir(position@, spec_to_move(position@.1).spec_opposite()),
                true,
                m,
            ) && m.colored_piece.spec_piece() != Piece::Wazir),
        spec_gen_sorted(r@),
{
    let w = opp_wazir_square(position);
    piece_moves_kind(position, MaskKind::Checks, w, true, false)
}

/// Captures that give no check and are not suicides.
pub fn captures_non_checks(position: &Position) -> (r: Vec<RegularMove>)
    requires
        spec_has_wazir(position@, spec_to_move(position@.1).spec_opposite()),
    ensures
        forall|m: RegularMove|
            r@.contains(m) <==> ((spec_is_kind_move(
                position@,
                MaskKind::NonChecks,
                spec_the_wazir(position@, spec_to_move(position@.1).spec_opposite()),
                true,
                m,
            ) && m.colored_piece.spec_piece() != Piece::Wazir) || spec_is_safe_wazir_move(
                position@,
                true,
                m,
            )),
        spec_gen_sorted(r@),
{
    let w = opp_wazir_square(position);
    kind_moves_then_wazir(position, MaskKind::NonChecks, w, true)
}

/// Captures that threaten to give check next move.
pub fn captures_check_threats(position: &Position) -> (r: Vec<RegularMove>)
    requires
        spec_has_wazir(position@, spec_to_move(position@.1).spec_opposite()),
    ensures
        forall|m: RegularMove|
            r@.contains(m) <==> (spec_is_kind_move(
                position@,
                MaskKind::CheckThreats,
                spec_the_wazir(position@, spec_to_move(position@.1).spec_opposite()),
                true,
                m,
            ) && m.colored_piece.spec_piece() != Piece::Wazir),
        spec_gen_sorted(r@),
{
    let w = opp_wazir_square(position);
    piece_moves_kind(position, MaskKind::CheckThreats, w, true, false)
}

/// Captures that neither check nor threaten to, and are not suicides.
pub fn captures_boring(position: &Position) -> (r: Vec<RegularMove>)
    requires
        spec_has_wazir(position@, spec_to_move(position@.1).spec_opposite()),
    ensures
        forall|m: RegularMove|
            r@.contains(m) <==> ((spec_is_kind_move(
                position@,
                MaskKind::Boring,
                spec_the_wazir(position@, spec_to_move(position@.1).spec_opposite()),
                true,
                m,
            ) && m.colored_piece.spec_piece() != Piece::Wazir) || spec_is_safe_wazir_move(
                position@,
                true,
                m,
            )),
        spec_gen_sorted(r@),
{
    let w = opp_wazir_square(position);
    kind_moves_then_wazir(position, MaskKind::Boring, w, true)
}

/// Jumps that give check.
pub fn jumps_checks(position: &Position) -> (r: Vec<RegularMove>)
    requires
        position@.0 == Stage::Regular,
        spec_has_wazir(position@, spec_to_move(position@.1).spec_opposite()),
    ensures
        forall|m: RegularMove|
            r@.contains(m) <==> (spec_is_kind_move(
                position@,
                MaskKind::Checks,
                spec_the_wazir(position@, spec_to_move(position@.1).spec_opposite()),
                false,
                m,
            ) && m.colored_piece.spec_piece() != Piece::Wazir),
        spec_gen_sorted(r@),
{
    let w = opp_wazir_square(position);
    piece_moves_kind(position, MaskKind::Checks, w, false, false)
}

/// Jumps that threaten to give check next move.
pub fn jumps_check_threats(position: &Position) -> (r: Vec<RegularMove>)
    requires
        position@.0 == Stage::Regular,
        spec_has_wazir(position@, spec_to_move(position@.1).spec_opposite()),
    ensures
        forall|m: RegularMove|
            r@.contains(m) <==> (spec_is_kind_move(
                position@,
                MaskKind::CheckThreats,
                spec_the_wazir(position@, spec_to_move(position@.1).spec_opposite()),
                false,
                m,
            ) && m.colored_piece.spec_piece() != Piece::Wazir),
        spec_gen_sorted(r@),
{
    let w = opp_wazir_square(position);
    piece_moves_kind(position, MaskKind::CheckThreats, w, false, false)
}

/// Jumps that neither check nor threaten to, and are not suicides.
pub fn jumps_boring(position: &Position) -> (r: Vec<RegularMove>)
    requires
        position@.0 == Stage::Regular,
        spec_has_wazir(position@, spec_to_move(position@.1).spec_opposite()),
    ensures
        forall|m: RegularMove|
            r@.contains(m) <==> ((spec_is_kind_move(
                position@,
                MaskKind::Boring,
                spec_the_wazir(position@, spec_to_move(position@.1).spec_opposite()),
                false,
                m,
            ) && m.colored_piece.spec_piece() != Piece::Wazir) || spec_is_safe_wazir_move(
                position@,
                false,
                m,
            )),
        spec_gen_sorted(r@),
{
    let w = opp_wazir_square(position);
    kind_moves_then_wazir(position, MaskKind::Boring, w, false)
}

/// Drops of held pieces on empty squares.
pub fn drops(position: &Position) -> (r: Vec<RegularMove>)
    requires
        position@.0 == Stage::Regular,
    ensures
        forall|m: RegularMove| r@.contains(m) <==> spec_is_kind_drop(position@, MaskKind::All, Square::A1, m),
        spec_gen_sorted(r@),
{
    drops_kind(position, MaskKind::All, Square::A1)
}

/// Drops that give check.
pub fn drops_checks(position: &Position) -> (r: Vec<RegularMove>)
    requires
        position@.0 == Stage::Regular,
        spec_has_wazir(position@, spec_to_move(position@.1).spec_opposite()),
    ensures
        forall|m: RegularMove|
            r@.contains(m) <==> spec_is_kind_drop(
                position@,
                MaskKind::Checks,
                spec_the_wazir(position@, spec_to_move(position@.1).spec_opposite()),
                m,
            ),
        spec_gen_sorted(r@),
{
    let w = opp_wazir_square(position);
    drops_kind(position, MaskKind::Checks, w)
}

/// Drops that threaten to give check next move.
pub fn drops_check_threats(position: &Position) -> (r: Vec<RegularMove>)
    requires
        position@.0 == Stage::Regular,
        spec_has_wazir(position@, spec_to_move(position@.1).spec_opposite()),
    ensures
        forall|m: RegularMove|
            r@.contains(m) <==> spec_is_kind_drop(
                position@,
                MaskKind::CheckThreats,
                spec_the_wazir(position@, spec_to_move(position@.1).spec_opposite()),
                m,
            ),
        spec_gen_sorted(r@),
{
    let w = opp_wazir_square(position);
    drops_kind(position, MaskKind::CheckThreats, w)
}

/// Drops that neither check nor threaten to.
pub fn drops_boring(position: &Position) -> (r: Vec<RegularMove>)
    requires
        position@.0 == Stage::Regular,
        spec_has_wazir(position@, spec_to_move(position@.1).spec_opposite()),
    ensures
        forall|m: RegularMove|
            r@.contains(m) <==> spec_is_kind_drop(
                position@,
                MaskKind::Boring,
                spec_the_wazir(position@, spec_to_move(position@.1).spec_opposite()),
                m,
            ),
        spec_gen_sorted(r@),
{
    let w = opp_wazir_square(position);
    drops_kind(position, MaskKind::Boring, w)
}

/// Every move the rules allow, suicides and ignored checks included.
pub open spec fn spec_is_pseudomove(s: PositionView, m: RegularMove) -> bool {
    ||| spec_is_kind_move(s, MaskKind::All, Square::A1, true, m)
    ||| spec_is_kind_move(s, MaskKind::All, Square::A1, false, m)
    ||| spec_is_kind_drop(s, MaskKind::All, Square::A1, m)
}

/// `v` lists captures before position `k1`, then jumps before `k2`, then drops, each part
/// in key order.
pub open spec fn pseudomoves_in_order(s: PositionView, v: Seq<RegularMove>, k1: int, k2: int) -> bool {
    &&& 0 <= k1 <= k2 <= v.len()
    &&& forall|i: int| 0 <= i < k1 ==> spec_is_kind_move(s, MaskKind::All, Square::A1, true, #[trigger] v[i])
    &&& forall|i: int| k1 <= i < k2 ==> spec_is_kind_move(s, MaskKind::All, Square::A1, false, #[trigger] v[i])
    &&& forall|i: int| k2 <= i < v.len() ==> spec_is_kind_drop(s, MaskKind::All, Square::A1, #[trigger] v[i])
    &&& spec_parts_sorted(v, k1, k2)
}

/// All pseudomoves: captures, jumps, then drops.
pub fn pseudomoves(position: &Position) -> (r: Vec<RegularMove>)
    requires
        position@.0 == Stage::Regular,
    ensures
        forall|m: RegularMove| r@.contains(m) <==> spec_is_pseudomove(position@, m),
        exists|k1: int, k2: int| #[trigger] pseudomoves_in_order(position@, r@, k1, k2),
{
    let mut r = pseudocaptures(position);
    let mut j = pseudojumps(position);
    let mut d = drops(position);
    let ghost r0 = r@;
    let ghost j0 = j@;
    let ghost d0 = d@;
    r.append(&mut j);
    r.append(&mut d);
    proof {
        assert forall|m: RegularMove| r@.contains(m) <==> spec_is_pseudomove(position@, m) by {
            lemma_concat_contains(r0, j0, m);
            lemma_concat_contains(r0 + j0, d0, m);
        }
        let k1 = r0.len() as int;
        let k2 = (r0.len() + j0.len()) as int;
        assert forall|i: int| 0 <= i < k1 implies spec_is_kind_move(position@, MaskKind::All, Square::A1, true, #[trigger] r@[i]) by {
            assert(r@[i] == r0[i]);
            assert(r0.contains(r0[i]));
        }
        assert forall|i: int| k1 <= i < k2 implies spec_is_kind_move(position@, MaskKind::All, Square::A1, false, #[trigger] r@[i]) by {
            assert(r@[i] == j0[i - k1]);
            assert(j0.contains(j0[i - k1]));
        }
        assert forall|i: int| k2 <= i < r@.len() implies spec_is_kind_drop(position@, MaskKind::All, Square::A1, #[trigger] r@[i]) by {
            assert(r@[i] == d0[i - k2]);
            assert(d0.contains(d0[i - k2]));
        }
        lemma_parts_sorted(r0, j0, d0);
        assert(pseudomoves_in_order(position@, r@, k1, k2));
    }
    r
}

/// A move that is not a suicide, for a side that is not in check.
pub open spec fn spec_is_move_not_in_check(s: PositionView, m: RegularMove) -> bool {
    ||| (spec_is_kind_move(s, MaskKind::All, Square::A1, true, m) && m.colored_piece.spec_piece() != Piece::Wazir)
    ||| spec_is_safe_wazir_move(s, true, m)
    ||| (spec_is_kind_move(s, MaskKind::All, Square::A1, false, m) && m.colored_piece.spec_piece()
        != Piece::Wazir)
    ||| spec_is_safe_wazir_move(s, false, m)
    ||| spec_is_kind_drop(s, MaskKind::All, Square::A1, m)
}

/// A capture that is not a suicide, for a side that is not in check.
pub open spec fn spec_is_safe_capture(s: PositionView, m: RegularMove) -> bool {
    ||| (spec_is_kind_move(s, MaskKind::All, Square::A1, true, m) && m.colored_piece.spec_piece() != Piece::Wazir)
    ||| spec_is_safe_wazir_move(s, true, m)
}

/// A jump that is not a suicide, for a side that is not in check.
pub open spec fn spec_is_safe_jump(s: PositionView, m: RegularMove) -> bool {
    ||| (spec_is_kind_move(s, MaskKind::All, Square::A1, false, m) && m.colored_piece.spec_piece() != Piece::Wazir)
    ||| spec_is_safe_wazir_move(s, false, m)
}

/// `v` lists safe captures before position `k1`, then safe jumps before `k2`, then drops,
/// each part in key order.
pub open spec fn moves_in_order(s: PositionView, v: Seq<RegularMove>, k1: int, k2: int) -> bool {
    &&& 0 <= k1 <= k2 <= v.len()
    &&& forall|i: int| 0 <= i < k1 ==> spec_is_safe_capture(s, #[trigger] v[i])
    &&& forall|i: int| k1 <= i < k2 ==> spec_is_safe_jump(s, #[trigger] v[i])
    &&& forall|i: int| k2 <= i < v.len() ==> spec_is_kind_drop(s, MaskKind::All, Square::A1, #[trigger] v[i])
    &&& spec_parts_sorted(v, k1, k2)
}

/// All moves but suicides, for a side that is not in check: captures, jumps, then drops.
pub fn moves_not_in_check(position: &Position) -> (r: Vec<RegularMove>)
    requires
        position@.0 == Stage::Regular,
    ensures
        forall|m: RegularMove| r@.contains(m) <==> spec_is_move_not_in_check(position@, m),
        exists|k1: int, k2: int| #[trigger] moves_in_order(position@, r@, k1, k2),
{
    let mut r = captures(position);
    let mut j = jumps(position);
    let mut d = drops(position);
    let ghost r0 = r@;
    let ghost j0 = j@;
    let ghost d0 = d@;
    r.append(&mut j);
    r.append(&mut d);
    proof {
        assert forall|m: RegularMove| r@.contains(m) <==> spec_is_move_not_in_check(position@, m) by {
            lemma_concat_contains(r0, j0, m);
            lemma_concat_contains(r0 + j0, d0, m);
        }
        let k1 = r0.len() as int;
        let k2 = (r0.len() + j0.len()) as int;
        assert forall|i: int| 0 <= i < k1 implies spec_is_safe_capture(position@, #[trigger] r@[i]) by {
            assert(r@[i] == r0[i]);
            assert(r0.contains(r0[i]));
        }
        assert forall|i: int| k1 <= i < k2 implies spec_is_safe_jump(position@, #[trigger] r@[i]) by {
            assert(r@[i] == j0[i - k1]);
            assert(j0.contains(j0[i - k1]));
        }
        assert forall|i: int| k2 <= i < r@.len() implies spec_is_kind_drop(position@, MaskKind::All, Square::A1, #[trigger] r@[i]) by {
            assert(r@[i] == d0[i - k2]);
            assert(d0.contains(d0[i - k2]));
        }
        lemma_parts_sorted(r0, j0, d0);
        assert(moves_in_order(position@, r@, k1, k2));
    }
    r
}

/// Captures of whatever stands on `to` by the side to move.
pub open spec fn spec_is_capture_of(s: PositionView, to: Square, m: RegularMove) -> bool {
    m.to == to && spec_is_kind_move(s, MaskKind::All, Square::A1, true, m)
}

/// All captures of the opponent piece on `to`, by piece kind, then origin.
fn pseudocaptures_of_square(position: &Position, to: Square) -> (r: Vec<RegularMove>)
    requires
        position@.0 == Stage::Regular,
    ensures
        forall|m: RegularMove| r@.contains(m) <==> spec_is_capture_of(position@, to, m),
        spec_gen_sorted(r@),
{
    let ghost s = position@;
    let target = Bitboard::single(to);
    let mut r: Vec<RegularMove> = Vec::new();
    let mut j: usize = 0;
    while j < 5
        invariant
            j <= 5,
            s == position@,
            target@ == set![to],
            forall|m: RegularMove|
                r@.contains(m) <==> (spec_is_capture_of(s, to, m) && m.colored_piece.spec_piece().spec_index() < j),
            spec_gen_sorted(r@),
        decreases 5 - j,
    {
        let piece = Piece::from_index(j);
        let from_mask = move_bitboard(piece, to);
        let mut v = piece_moves_masks(position, piece, from_mask, target, true);
        let ghost r0 = r@;
        let ghost v0 = v@;
        r.append(&mut v);
        proof {
            assert forall|a: int, b: int| 0 <= a < r0.len() && 0 <= b < v0.len() implies gen_key(r0[a]) < gen_key(v0[b]) by {
                assert(r0.contains(r0[a]));
                assert(v0.contains(v0[b]));
                lemma_move_key_bound(r0[a]);
                lemma_move_key_bound(v0[b]);
            }
            lemma_gen_sorted_concat(r0, v0);
            assert forall|m: RegularMove|
                r@.contains(m) <==> (spec_is_capture_of(s, to, m) && m.colored_piece.spec_piece().spec_index() < j
                    + 1) by {
                lemma_concat_contains(r0, v0, m);
                if m.from is Some {
                    lemma_reaches_symmetric(piece, m.from->0, to);
                }
                if v0.contains(m) {
                    assert(m.colored_piece.spec_piece() == piece);
                }
                if spec_is_capture_of(s, to, m) && m.colored_piece.spec_piece().spec_index() == j {
                    assert(m.colored_piece.spec_piece() == piece);
                }
            }
        }
        j += 1;
    }
    r
}

/// Captures of the opponent's wazir: the last move of a game.
pub fn captures_of_wazir(position: &Position) -> (r: Vec<RegularMove>)
    requires
        position@.0 == Stage::Regular,
        spec_has_wazir(position@, spec_to_move(position@.1).spec_opposite()),
    ensures
        forall|m: RegularMove|
            r@.contains(m) <==> spec_is_capture_of(
                position@,
                spec_the_wazir(position@, spec_to_move(position@.1).spec_opposite()),
                m,
            ),
        spec_gen_sorted(r@),
{
    let w = opp_wazir_square(position);
    pseudocaptures_of_square(position, w)
}

/// For a side in check by a single piece: the captures of that piece; by several: none.
pub open spec fn spec_is_capture_of_attacker(s: PositionView, m: RegularMove) -> bool {
    let me = spec_to_move(s.1);
    let attackers = spec_attackers(s, spec_the_wazir(s, me), me.spec_opposite());
    exists|a: Square| attackers == set![a] && #[trigger] spec_is_capture_of(s, a, m)
}

/// Captures of the piece giving check, when only one piece gives check.
pub fn check_evasions_capture_attacker(position: &Position) -> (r: Vec<RegularMove>)
    requires
        position@.0 == Stage::Regular,
        spec_in_check(position@, spec_to_move(position@.1)),
    ensures
        forall|m: RegularMove| r@.contains(m) <==> spec_is_capture_of_attacker(position@, m),
        spec_gen_sorted(r@),
{
    let me = position.to_move();
    let opp = me.opposite();
    let w = match position.wazir_square(me) {
        Some(w) => w,
        None => Square::A1,
    };
    let checked_by = attacked_by(position, w, opp);
    let first = match checked_by.first() {
        Some(a) => a,
        None => Square::A1,
    };
    let rest = checked_by.difference(Bitboard::single(first));
    if !rest.is_empty() {
        proof {
            assert forall|m: RegularMove| !spec_is_capture_of_attacker(position@, m) by {
                if exists|a: Square| checked_by@ == set![a] && #[trigger] spec_is_capture_of(position@, a, m) {
                    let a = choose|a: Square| checked_by@ == set![a] && #[trigger] spec_is_capture_of(position@, a, m);
                    assert(checked_by@.contains(first));
                    assert(first == a);
                    if forall|x: Square| !rest@.contains(x) {
                        assert(rest@ =~= Set::<Square>::empty());
                    }
                    let x = choose|x: Square| rest@.contains(x);
                    assert(checked_by@.contains(x));
                    assert(false);
                }
            }
        }
        return Vec::new();
    }
    let r = pseudocaptures_of_square(position, first);
    proof {
        assert(checked_by@ =~= set![first]) by {
            assert forall|x: Square| checked_by@.contains(x) implies x == first by {
                if x != first {
                    assert(rest@.contains(x));
                }
            }
        }
        assert forall|m: RegularMove| r@.contains(m) <==> spec_is_capture_of_attacker(position@, m) by {
            if spec_is_capture_of_attacker(position@, m) {
                let a = choose|a: Square| checked_by@ == set![a] && #[trigger] spec_is_capture_of(position@, a, m);
                assert(checked_by@.contains(a));
                assert(a == first);
            }
        }
    }
    r
}

/// The moves that get a side out of check, in the order: capture the attacker, wazir
/// captures, wazir jumps.
pub open spec fn spec_is_check_evasion(s: PositionView, m: RegularMove) -> bool {
    ||| spec_is_capture_of_attacker(s, m)
    ||| spec_is_safe_wazir_move(s, true, m)
    ||| spec_is_safe_wazir_move(s, false, m)
}

/// The three parts of `v` cut at `k1` and `k2` are each in key order.
pub open spec fn spec_parts_sorted(v: Seq<RegularMove>, k1: int, k2: int) -> bool {
    &&& 0 <= k1 <= k2 <= v.len()
    &&& spec_gen_sorted(v.subrange(0, k1))
    &&& spec_gen_sorted(v.subrange(k1, k2))
    &&& spec_gen_sorted(v.subrange(k2, v.len() as int))
}

/// Three lists in key order, concatenated, are in key order part by part.
proof fn lemma_parts_sorted(a: Seq<RegularMove>, b: Seq<RegularMove>, c: Seq<RegularMove>)
    requires
        spec_gen_sorted(a),
        spec_gen_sorted(b),
        spec_gen_sorted(c),
    ensures
        spec_parts_sorted(a + b + c, a.len() as int, (a.len() + b.len()) as int),
{
    let v = a + b + c;
    assert(v.subrange(0, a.len() as int) =~= a);
    assert(v.subrange(a.len() as int, (a.len() + b.len()) as int) =~= b);
    assert(v.subrange((a.len() + b.len()) as int, v.len() as int) =~= c);
}

/// `v` lists captures of the attacker before position `k1`, then wazir captures before
/// `k2`, then wazir jumps, each part in key order.
pub open spec fn evasions_in_order(s: PositionView, v: Seq<RegularMove>, k1: int, k2: int) -> bool {
    &&& 0 <= k1 <= k2 <= v.len()
    &&& forall|i: int| 0 <= i < k1 ==> spec_is_capture_of_attacker(s, #[trigger] v[i])
    &&& forall|i: int| k1 <= i < k2 ==> spec_is_safe_wazir_move(s, true, #[trigger] v[i])
    &&& forall|i: int| k2 <= i < v.len() ==> spec_is_safe_wazir_move(s, false, #[trigger] v[i])
    &&& spec_parts_sorted(v, k1, k2)
}

/// Moves out of check, for a side in check, in the order of `evasions_in_order`.
pub fn check_evasions(position: &Position) -> (r: Vec<RegularMove>)
    requires
        position@.0 == Stage::Regular,
        spec_in_check(position@, spec_to_move(position@.1)),
    ensures
        forall|m: RegularMove| r@.contains(m) <==> spec_is_check_evasion(position@, m),
        exists|k1: int, k2: int| #[trigger] evasions_in_order(position@, r@, k1, k2),
{
    let mut r = check_evasions_capture_attacker(position);
    let mut c = captures_by_wazir(position);
    let mut j = jumps_by_wazir(position);
    let ghost r0 = r@;
    let ghost c0 = c@;
    let ghost j0 = j@;
    r.append(&mut c);
    r.append(&mut j);
    proof {
        assert forall|m: RegularMove| r@.contains(m) <==> spec_is_check_evasion(position@, m) by {
            lemma_concat_contains(r0, c0, m);
            lemma_concat_contains(r0 + c0, j0, m);
        }
        let k1 = r0.len() as int;
        let k2 = (r0.len() + c0.len()) as int;
        assert forall|i: int| 0 <= i < k1 implies spec_is_capture_of_attacker(position@, #[trigger] r@[i]) by {
            assert(r@[i] == r0[i]);
            assert(r0.contains(r0[i]));
        }
        assert forall|i: int| k1 <= i < k2 implies spec_is_safe_wazir_move(position@, true, #[trigger] r@[i]) by {
            assert(r@[i] == c0[i - k1]);
            assert(c0.contains(c0[i - k1]));
        }
        assert forall|i: int| k2 <= i < r@.len() implies spec_is_safe_wazir_move(position@, false, #[trigger] r@[i]) by {
            assert(r@[i] == j0[i - k2]);
            assert(j0.contains(j0[i - k2]));
        }
        lemma_parts_sorted(r0, c0, j0);
        assert(evasions_in_order(position@, r@, k1, k2));
    }
    r
}

/// The pseudomoves of a position: during the setup, the setups of the side to move, one
/// at a time; during the game, every pseudomove.
pub enum AnyPseudomoves {
    Setup(SetupMoveIterator),
    Regular(Vec<RegularMove>),
}

/// The pseudomoves of a position that is not over.
pub fn any_pseudomoves(position: &Position) -> (r: AnyPseudomoves)
    requires
        !(position@.0 is End),
    ensures
        position@.0 == Stage::Setup ==> (r matches AnyPseudomoves::Setup(it) && it.color() == spec_to_move(
            position@.1,
        ) && it.last() is None),
        position@.0 == Stage::Regular ==> (r matches AnyPseudomoves::Regular(v) && (forall|m: RegularMove|
            v@.contains(m) <==> spec_is_pseudomove(position@, m)) && exists|k1: int, k2: int|
            #[trigger] pseudomoves_in_order(position@, v@, k1, k2)),
{
    match position.stage() {
        Stage::Setup => AnyPseudomoves::Setup(setup_moves(position.to_move())),
        _ => {
            let v = pseudomoves(position);
            proof {
                let (k1, k2) = choose|k1: int, k2: int| #[trigger] pseudomoves_in_order(position@, v@, k1, k2);
                assert(pseudomoves_in_order(position@, v@, k1, k2));
            }
            let r = AnyPseudomoves::Regular(v);
            assert(r matches AnyPseudomoves::Regular(w) && w@ == v@);
            r
        },
    }
}

/// All moves but suicides: check evasions when in check, else every other move.
pub fn moves(position: &Position) -> (r: Vec<RegularMove>)
    requires
        position@.0 == Stage::Regular,
    ensures
        spec_in_check(position@, spec_to_move(position@.1)) ==> forall|m: RegularMove|
            r@.contains(m) <==> spec_is_check_evasion(position@, m),
        !spec_in_check(position@, spec_to_move(position@.1)) ==> forall|m: RegularMove|
            r@.contains(m) <==> spec_is_move_not_in_check(position@, m),
        spec_in_check(position@, spec_to_move(position@.1)) ==> exists|k1: int, k2: int|
            #[trigger] evasions_in_order(position@, r@, k1, k2),
        !spec_in_check(position@, spec_to_move(position@.1)) ==> exists|k1: int, k2: int|
            #[trigger] moves_in_order(position@, r@, k1, k2),
{
    if in_check(position, position.to_move()) {
        check_evasions(position)
    } else {
        moves_not_in_check(position)
    }
}


/// The full move that a short move stands for in a position, `None` when the short move
/// is not valid there. A regular short move is completed with the moving piece (the piece
/// in hand, or the one on the origin square) and with the piece it captures, if any.
pub open spec fn spec_move_from_short(s: PositionView, sm: ShortMove) -> Option<Move> {
    let me = spec_to_move(s.1);
    match sm {
        ShortMove::Setup(m) => {
            if s.0 == Stage::Setup && m.color == me && spec_valid_pieces(m.pieces@) {
                Some(Move::Setup(m))
            } else {
                None
            }
        },
        ShortMove::Regular { from, to } => {
            let target = s.2[to.spec_index() as int];
            let captured: Option<Piece> = match target {
                None => None,
                Some(c) => Some(c.spec_piece()),
            };
            let target_ok = match target {
                None => true,
                Some(c) => c.spec_color() == me.spec_opposite(),
            };
            let origin: Option<(ColoredPiece, Option<Square>)> = match from {
                ShortMoveFrom::Piece(cp) => {
                    if captured is None && s.3[cp.spec_index() as int] > 0 {
                        Some((cp, None))
                    } else {
                        None
                    }
                },
                ShortMoveFrom::Square(sq) => match s.2[sq.spec_index() as int] {
                    None => None,
                    Some(cp) => if spec_reaches(cp.spec_piece(), sq, to) {
                        Some((cp, Some(sq)))
                    } else {
                        None
                    },
                },
            };
            match origin {
                Some((cp, f)) => if s.0 == Stage::Regular && target_ok && cp.spec_color() == me {
                    Some(Move::Regular(RegularMove { colored_piece: cp, from: f, captured, to }))
                } else {
                    None
                },
                None => None,
            }
        },
    }
}

/// Completes a short move into a full move, checking what can be checked without playing
/// it: the stage, the side to move, the pieces of a setup, that a captured piece is the
/// opponent's, that a dropped piece is in hand and lands on an empty square, and that a
/// piece on the board can leap to the target.
pub fn any_move_from_short_move(position: &Position, short_move: ShortMove) -> (r: Result<
    Move,
    InvalidMove,
>)
    ensures
        match spec_move_from_short(position@, short_move) {
            Some(m) => r == Ok::<Move, InvalidMove>(m),
            None => r is Err,
        },
        r matches Ok(m) ==> spec_short_of_move(m) == short_move && match m {
            Move::Setup(x) => spec_setup_legal(position@, x),
            Move::Regular(x) => spec_regular_step(position@, x) is Some,
        },
        forall|m: Move|
            #![trigger spec_short_of_move(m)]
            spec_short_of_move(m) == short_move && match m {
                Move::Setup(x) => spec_setup_legal(position@, x),
                Move::Regular(x) => spec_regular_legal(position@, x),
            } ==> r == Ok::<Move, InvalidMove>(m),
{
    position.check_valid();
    proof {
        lemma_short_move_legal(position@, short_move);
        assert forall|m: Move|
            #![trigger spec_short_of_move(m)]
            spec_short_of_move(m) == short_move && match m {
                Move::Setup(x) => spec_setup_legal(position@, x),
                Move::Regular(x) => spec_regular_legal(position@, x),
            } implies spec_move_from_short(position@, short_move) == Some(m) by {
            lemma_short_move_roundtrip(position@, m);
        }
    }
    let me = position.to_move();
    match short_move {
        ShortMove::Setup(mov) => {
            match position.stage() {
                Stage::Setup => {},
                _ => {
                    return Err(InvalidMove);
                },
            }
            if mov.color != me {
                return Err(InvalidMove);
            }
            match mov.validate_pieces() {
                Ok(()) => {},
                Err(e) => {
                    return Err(e);
                },
            }
            Ok(Move::Setup(mov))
        },
        ShortMove::Regular { from, to } => {
            match position.stage() {
                Stage::Regular => {},
                _ => {
                    return Err(InvalidMove);
                },
            }
            let captured = match position.square(to) {
                None => None,
                Some(c) => {
                    if c.color() != me.opposite() {
                        return Err(InvalidMove);
                    }
                    Some(c.piece())
                },
            };
            let (colored_piece, origin) = match from {
                ShortMoveFrom::Piece(cpiece) => {
                    if captured.is_some() || position.num_captured(cpiece) == 0 {
                        return Err(InvalidMove);
                    }
                    (cpiece, None)
                },
                ShortMoveFrom::Square(square) => {
                    let piece = match position.square(square) {
                        Some(p) => p,
                        None => {
                            return Err(InvalidMove);
                        },
                    };
                    match validate_from_to(piece.piece(), square, to) {
                        Ok(()) => {},
                        Err(e) => {
                            return Err(e);
                        },
                    }
                    (piece, Some(square))
                },
            };
            if colored_piece.color() != me {
                return Err(InvalidMove);
            }
            Ok(Move::Regular(RegularMove { colored_piece, from: origin, captured, to }))
        },
    }
}

/// The kinds of captures and jumps relative to the opponent's wazir `w`, by where the
/// moved piece stands afterwards: a check attacks `w` from the target square; a check
/// threat lands two leaps away from `w`; a boring move does neither (drops alike). The
/// origin squares that the generators look at (two, or three, leaps away from `w`) lose
/// no such move.
pub proof fn lemma_move_kinds(s: PositionView, w: Square, capture: bool, m: RegularMove)
    ensures
        spec_is_kind_move(s, MaskKind::Checks, w, capture, m) <==> (spec_is_kind_move(
            s,
            MaskKind::All,
            Square::A1,
            capture,
            m,
        ) && spec_reaches(m.colored_piece.spec_piece(), m.to, w)),
        spec_is_kind_move(s, MaskKind::NonChecks, w, capture, m) <==> (spec_is_kind_move(
            s,
            MaskKind::All,
            Square::A1,
            capture,
            m,
        ) && !spec_reaches(m.colored_piece.spec_piece(), m.to, w)),
        spec_is_kind_move(s, MaskKind::CheckThreats, w, capture, m) <==> (spec_is_kind_move(
            s,
            MaskKind::All,
            Square::A1,
            capture,
            m,
        ) && spec_double_move_set(m.colored_piece.spec_piece(), w).contains(m.to)),
        spec_is_kind_move(s, MaskKind::Boring, w, capture, m) <==> (spec_is_kind_move(
            s,
            MaskKind::All,
            Square::A1,
            capture,
            m,
        ) && !spec_reaches(m.colored_piece.spec_piece(), m.to, w) && !spec_double_move_set(
            m.colored_piece.spec_piece(),
            w,
        ).contains(m.to)),
        spec_is_kind_drop(s, MaskKind::Checks, w, m) <==> (spec_is_kind_drop(s, MaskKind::All, Square::A1, m)
            && spec_reaches(m.colored_piece.spec_piece(), m.to, w)),
        spec_is_kind_drop(s, MaskKind::CheckThreats, w, m) <==> (spec_is_kind_drop(
            s,
            MaskKind::All,
            Square::A1,
            m,
        ) && spec_double_move_set(m.colored_piece.spec_piece(), w).contains(m.to)),
        spec_is_kind_drop(s, MaskKind::Boring, w, m) <==> (spec_is_kind_drop(s, MaskKind::All, Square::A1, m)
            && !spec_reaches(m.colored_piece.spec_piece(), m.to, w) && !spec_double_move_set(
            m.colored_piece.spec_piece(),
            w,
        ).contains(m.to)),
{
    let p = m.colored_piece.spec_piece();
    lemma_reaches_symmetric(p, m.to, w);
    if m.from is Some {
        let f = m.from->0;
        lemma_reaches_symmetric(p, f, m.to);
        if spec_reaches(p, f, m.to) {
            // the target is the middle square of a path from `w` back to the origin
            if spec_reaches(p, w, m.to) {
                assert(spec_reaches(p, w, m.to) && spec_reaches(p, m.to, f));
                assert(spec_double_move_set(p, w).contains(f));
            }
            if spec_double_move_set(p, w).contains(m.to) {
                assert(spec_double_move_set(p, w).contains(m.to) && spec_reaches(p, m.to, f));
                assert(spec_triple_move_set(p, w).contains(f));
            }
        }
    }
}

/// In a valid position of the game, the pseudomoves are exactly the regular moves that
/// the rules allow: every pseudomove can be played, and every move that can be played is
/// a pseudomove, suicides and ignored checks included.
pub proof fn lemma_pseudomoves_legal(s: PositionView, m: RegularMove)
    requires
        spec_valid(s.0, s.1, s.2, s.3),
        s.0 == Stage::Regular,
    ensures
        spec_is_pseudomove(s, m) <==> spec_regular_step(s, m) is Some,
{
    let me = spec_to_move(s.1);
    let opp = me.spec_opposite();
    let cp = m.colored_piece;
    let p = cp.spec_piece();
    let to = m.to.spec_index() as int;
    lemma_no_captured_wazir(s);
    assert(ColoredPiece::spec_new(cp.spec_piece(), cp.spec_color()) == cp);
    assert(0 <= to < 64);
    match m.from {
        None => {
            if spec_regular_legal(s, m) {
                assert(p != Piece::Wazir) by {
                    if p == Piece::Wazir {
                        assert(cp == spec_wazir(me));
                    }
                }
                assert(step_b1(s, m) == s.2);
                assert(spec_is_kind_drop(s, MaskKind::All, Square::A1, m));
            }
            if spec_is_pseudomove(s, m) {
                assert(spec_is_kind_drop(s, MaskKind::All, Square::A1, m));
                assert(spec_regular_legal(s, m));
            }
        },
        Some(f) => {
            lemma_reaches_irreflexive(p, f);
            assert(0 <= f.spec_index() < 64);
            if spec_reaches(p, f, m.to) {
                assert(f != m.to);
                assert(f.spec_index() != m.to.spec_index()) by {
                    lemma_square_index_injective(f, m.to);
                }
                assert(step_b1(s, m)[to] == s.2[to]);
            }
            if let Some(c) = m.captured {
                let victim = ColoredPiece::spec_new(c, opp);
                if s.2[to] == Some(victim) {
                    lemma_count_one(s.2, victim, 64, to);
                    assert(spec_total_in_game(s.2, s.3, c) == 2 * spec_initial_count(c));
                    assert(ColoredPiece::spec_new(c, me) != victim);
                    assert(victim.spec_color() == opp && victim.spec_piece() == c);
                    assert(s.3[ColoredPiece::spec_new(c, me).spec_index() as int] < spec_total_count(c)) by {
                        match me {
                            Color::Red => {},
                            Color::Blue => {},
                        }
                    }
                }
                if s.2[to] is Some && s.2[to]->0.spec_color() == opp && c == s.2[to]->0.spec_piece() {
                    assert(s.2[to] == Some(victim));
                }
            }
        },
    }
}

/// A piece counted on the board stands on some square.
proof fn lemma_counted_somewhere(b: Seq<Option<ColoredPiece>>, cp: ColoredPiece, n: nat)
    requires
        count_piece_below(b, cp, n) > 0,
    ensures
        exists|k: int| 0 <= k < n && b[k] == Some(cp),
    decreases n,
{
    if b[n - 1] != Some(cp) {
        lemma_counted_somewhere(b, cp, (n - 1) as nat);
        let k = choose|k: int| 0 <= k < n - 1 && b[k] == Some(cp);
        assert(0 <= k < n && b[k] == Some(cp));
    }
}

/// In a valid position of the game both wazirs are on the board.
pub proof fn lemma_has_wazir(s: PositionView, color: Color)
    requires
        spec_valid(s.0, s.1, s.2, s.3),
        s.0 == Stage::Regular,
    ensures
        spec_has_wazir(s, color),
{
    lemma_no_captured_wazir(s);
    assert(spec_total_in_game(s.2, s.3, Piece::Wazir) == 2);
    assert(spec_count_piece(s.2, spec_wazir(color)) == 1);
    lemma_counted_somewhere(s.2, spec_wazir(color), 64);
    let k = choose|k: int| 0 <= k < 64 && s.2[k] == Some(spec_wazir(color));
    let w = Square::spec_from_index(k);
    assert(w.spec_index() == k);
    assert(s.2[w.spec_index() as int] == Some(spec_wazir(color)));
}

/// The mover's wazir is not attacked after the move.
pub open spec fn spec_leaves_wazir_safe(s: PositionView, m: RegularMove) -> bool {
    !spec_in_check(spec_regular_step(s, m)->Some_0, spec_to_move(s.1))
}

/// A move by a piece other than the wazir leaves the mover's wazir where it was, and the
/// pieces attacking it afterwards are among those that attacked it before, all but the
/// one on the target square.
proof fn lemma_other_move_attackers(s: PositionView, m: RegularMove)
    requires
        spec_valid(s.0, s.1, s.2, s.3),
        s.0 == Stage::Regular,
        spec_regular_step(s, m) is Some,
        m.colored_piece.spec_piece() != Piece::Wazir,
    ensures
        ({
            let me = spec_to_move(s.1);
            let t = spec_regular_step(s, m)->Some_0;
            let w = spec_the_wazir(s, me);
            &&& spec_has_wazir(t, me)
            &&& spec_the_wazir(t, me) == w
            &&& forall|x: Square| #[trigger] spec_attackers(t, w, me.spec_opposite()).contains(x) ==> spec_attackers(s, w, me.spec_opposite()).contains(x)
            &&& forall|x: Square| #[trigger] spec_attackers(s, w, me.spec_opposite()).contains(x) && !spec_attackers(t, w, me.spec_opposite()).contains(x) ==> x == m.to
        }),
{
    let me = spec_to_move(s.1);
    let opp = me.spec_opposite();
    let cp = m.colored_piece;
    let t = spec_regular_step(s, m)->Some_0;
    lemma_regular_step_valid(s, m);
    lemma_has_wazir(s, me);
    let w = spec_the_wazir(s, me);
    let wi = w.spec_index() as int;
    let to = m.to.spec_index() as int;
    assert(s.2[wi] == Some(spec_wazir(me)));
    assert(ColoredPiece::spec_new(cp.spec_piece(), cp.spec_color()) == cp);
    assert(to != wi);
    if let Some(f) = m.from {
        assert(f.spec_index() != w.spec_index());
    }
    assert(t.2[wi] == Some(spec_wazir(me)));
    lemma_wazir_unique(t, me, w);
    assert forall|x: Square| #[trigger] spec_attackers(t, w, opp).contains(x) implies spec_attackers(s, w, opp).contains(x) by {
        let xi = x.spec_index() as int;
        assert(xi != to);
        if let Some(f) = m.from {
            assert(xi != f.spec_index() as int);
        }
        assert(t.2[xi] == s.2[xi]);
    }
    assert forall|x: Square| #[trigger] spec_attackers(s, w, opp).contains(x) && !spec_attackers(t, w, opp).contains(x) implies x == m.to by {
        let xi = x.spec_index() as int;
        if let Some(f) = m.from {
            if xi == f.spec_index() as int {
                lemma_square_index_injective(x, f);
            }
        }
        if xi != to {
            assert(t.2[xi] == s.2[xi]);
        }
        lemma_square_index_injective(x, m.to);
    }
}

/// A wazir move puts the wazir on the target square, where the same pieces attack it as
/// before the move.
proof fn lemma_wazir_move_attackers(s: PositionView, m: RegularMove)
    requires
        spec_valid(s.0, s.1, s.2, s.3),
        s.0 == Stage::Regular,
        spec_regular_step(s, m) is Some,
        m.colored_piece.spec_piece() == Piece::Wazir,
    ensures
        ({
            let me = spec_to_move(s.1);
            let t = spec_regular_step(s, m)->Some_0;
            &&& m.from is Some
            &&& spec_has_wazir(t, me)
            &&& spec_the_wazir(t, me) == m.to
            &&& spec_attackers(t, m.to, me.spec_opposite()) == spec_attackers(s, m.to, me.spec_opposite())
        }),
{
    let me = spec_to_move(s.1);
    let opp = me.spec_opposite();
    let cp = m.colored_piece;
    let p = cp.spec_piece();
    let t = spec_regular_step(s, m)->Some_0;
    lemma_regular_step_valid(s, m);
    lemma_no_captured_wazir(s);
    assert(ColoredPiece::spec_new(cp.spec_piece(), cp.spec_color()) == cp);
    assert(cp == spec_wazir(me));
    assert(m.from is Some);
    let f = m.from->0;
    let fi = f.spec_index() as int;
    let to = m.to.spec_index() as int;
    lemma_reaches_irreflexive(p, f);
    assert(fi != to) by {
        lemma_square_index_injective(f, m.to);
    }
    assert(t.2[to] == Some(spec_wazir(me)));
    lemma_wazir_unique(t, me, m.to);
    assert(spec_attackers(t, m.to, opp) =~= spec_attackers(s, m.to, opp)) by {
        assert forall|x: Square| spec_attackers(t, m.to, opp).contains(x) == spec_attackers(s, m.to, opp).contains(x) by {
            let xi = x.spec_index() as int;
            if xi == to {
                lemma_square_index_injective(x, m.to);
                lemma_reaches_irreflexive(t.2[xi]->0.spec_piece(), x);
                lemma_reaches_irreflexive(s.2[xi]->0.spec_piece(), x);
            } else if xi == fi {
                assert(s.2[xi] == Some(cp));
            } else {
                assert(t.2[xi] == s.2[xi]);
            }
        }
    }
}

/// For a side that is not in check, `moves` lists exactly the pseudomoves after which its
/// wazir is not attacked: all moves but suicides.
pub proof fn lemma_moves_not_in_check_safe(s: PositionView, m: RegularMove)
    requires
        spec_valid(s.0, s.1, s.2, s.3),
        s.0 == Stage::Regular,
        !spec_in_check(s, spec_to_move(s.1)),
    ensures
        spec_is_move_not_in_check(s, m) <==> (spec_is_pseudomove(s, m) && spec_leaves_wazir_safe(s, m)),
{
    let me = spec_to_move(s.1);
    let opp = me.spec_opposite();
    lemma_pseudomoves_legal(s, m);
    lemma_has_wazir(s, me);
    if spec_is_pseudomove(s, m) {
        let t = spec_regular_step(s, m)->Some_0;
        let w = spec_the_wazir(s, me);
        if m.colored_piece.spec_piece() != Piece::Wazir {
            lemma_other_move_attackers(s, m);
            assert(spec_attackers(t, w, opp) =~= Set::<Square>::empty()) by {
                assert forall|x: Square| !spec_attackers(t, w, opp).contains(x) by {
                    if spec_attackers(t, w, opp).contains(x) {
                        assert(spec_attackers(s, w, opp).contains(x));
                    }
                }
            }
        } else {
            lemma_wazir_move_attackers(s, m);
        }
    }
}

/// For a side in check: every pseudomove after which its wazir is not attacked is a check
/// evasion; every evasion by a piece other than the wazir, and every wazir move onto a
/// square no opponent piece attacks, leaves the wazir safe. (The captures of a single
/// checking piece include the wazir's, which may land on an attacked square.)
pub proof fn lemma_check_evasions_safe(s: PositionView, m: RegularMove)
    requires
        spec_valid(s.0, s.1, s.2, s.3),
        s.0 == Stage::Regular,
        spec_in_check(s, spec_to_move(s.1)),
    ensures
        (spec_is_pseudomove(s, m) && spec_leaves_wazir_safe(s, m)) ==> spec_is_check_evasion(s, m),
        (spec_is_check_evasion(s, m) && m.colored_piece.spec_piece() != Piece::Wazir) ==> (spec_is_pseudomove(s, m)
            && spec_leaves_wazir_safe(s, m)),
        (spec_is_safe_wazir_move(s, true, m) || spec_is_safe_wazir_move(s, false, m)) ==> (spec_is_pseudomove(
            s,
            m,
        ) && spec_leaves_wazir_safe(s, m)),
{
    let me = spec_to_move(s.1);
    let opp = me.spec_opposite();
    let w = spec_the_wazir(s, me);
    let att = spec_attackers(s, w, opp);
    lemma_pseudomoves_legal(s, m);
    lemma_has_wazir(s, me);
    if spec_is_pseudomove(s, m) {
        let t = spec_regular_step(s, m)->Some_0;
        if m.colored_piece.spec_piece() == Piece::Wazir {
            lemma_wazir_move_attackers(s, m);
        } else {
            lemma_other_move_attackers(s, m);
            if spec_leaves_wazir_safe(s, m) {
                // every checking piece is gone: it stood on the target
                assert(exists|x: Square| att.contains(x)) by {
                    if forall|x: Square| !att.contains(x) {
                        assert(att =~= Set::<Square>::empty());
                    }
                }
                let a = choose|x: Square| att.contains(x);
                assert(!spec_attackers(t, w, opp).contains(a));
                assert(a == m.to);
                assert(att =~= set![a]) by {
                    assert forall|x: Square| att.contains(x) implies x == a by {
                        assert(!spec_attackers(t, w, opp).contains(x));
                    }
                }
                assert(spec_is_capture_of(s, a, m));
            }
        }
    }
    if spec_is_check_evasion(s, m) && m.colored_piece.spec_piece() != Piece::Wazir {
        let a = choose|a: Square| att == set![a] && #[trigger] spec_is_capture_of(s, a, m);
        assert(spec_is_pseudomove(s, m));
        let t = spec_regular_step(s, m)->Some_0;
        lemma_other_move_attackers(s, m);
        assert(spec_attackers(t, w, opp) =~= Set::<Square>::empty()) by {
            assert forall|x: Square| !spec_attackers(t, w, opp).contains(x) by {
                if spec_attackers(t, w, opp).contains(x) {
                    assert(att.contains(x));
                    assert(x == a);
                }
            }
        }
    }
    if spec_is_safe_wazir_move(s, true, m) || spec_is_safe_wazir_move(s, false, m) {
        lemma_wazir_move_attackers(s, m);
    }
}

/// A linear measure of a square's coordinates that every leap of the piece changes by
/// half of `leap_modulus` (modulo it): a colouring that each leap alternates.
pub open spec fn leap_measure(p: Piece, x: int, y: int) -> int {
    match p {
        Piece::Alfil => x,
        Piece::Ferz => x,
        _ => x + y,
    }
}

/// The modulus for `leap_measure`.
pub open spec fn leap_modulus(p: Piece) -> int {
    match p {
        Piece::Alfil => 4,
        Piece::Dabbaba => 4,
        _ => 2,
    }
}

/// The measure of a square.
pub open spec fn square_measure(p: Piece, sq: Square) -> int {
    leap_measure(p, sq_x(sq.spec_index() as int), sq_y(sq.spec_index() as int))
}

/// One leap changes the measure by half the modulus.
proof fn lemma_leap_measure(p: Piece, a: Square, b: Square)
    requires
        spec_reaches(p, a, b),
    ensures
        (square_measure(p, b) - square_measure(p, a)) % leap_modulus(p) == leap_modulus(p) / 2,
{
    let d = spec_directions(p);
    let i = choose|i: int| 0 <= i < d.len() && #[trigger] spec_square_add(a.spec_index() as int, d[i].0, d[i].1) == Some(b);
    let (dx, dy) = d[i];
    let ai = a.spec_index() as int;
    let bi = b.spec_index() as int;
    assert(ai < 64);
    assert(bi == (ai / 8 + dy) * 8 + (ai % 8 + dx));
    assert(bi % 8 == ai % 8 + dx);
    assert(bi / 8 == ai / 8 + dy);
    assert(leap_measure(p, dx, dy) % leap_modulus(p) == leap_modulus(p) / 2) by {
        if i == 0 {
        } else if i == 1 {
        } else if i == 2 {
        } else if i == 3 {
        } else if i == 4 {
        } else if i == 5 {
        } else if i == 6 {
        } else {
        }
    }
}

/// No square is both one leap and two leaps of a piece away from `w`.
pub proof fn lemma_single_double_disjoint(p: Piece, w: Square, sq: Square)
    ensures
        !(spec_move_set(p, w).contains(sq) && spec_double_move_set(p, w).contains(sq)),
{
    if spec_move_set(p, w).contains(sq) && spec_double_move_set(p, w).contains(sq) {
        let mid = choose|mid: Square| #[trigger] spec_reaches(p, w, mid) && spec_reaches(p, mid, sq);
        lemma_leap_measure(p, w, sq);
        lemma_leap_measure(p, w, mid);
        lemma_leap_measure(p, mid, sq);
        let a = square_measure(p, w);
        let b = square_measure(p, sq);
        let c = square_measure(p, mid);
        if leap_modulus(p) == 2 {
            lemma_half_mod_sum(a, b, c, 2);
        } else {
            lemma_half_mod_sum(a, b, c, 4);
        }
    }
}

/// Two steps that each change a value by half the modulus change it by a multiple of it.
proof fn lemma_half_mod_sum(a: int, b: int, c: int, m: int)
    requires
        m == 2 || m == 4,
        (c - a) % m == m / 2,
        (b - c) % m == m / 2,
    ensures
        (b - a) % m != m / 2,
{
    if m == 2 {
        assert((b - a) % 2 == 0);
    } else {
        assert((b - a) % 4 == 0);
    }
}

/// The captures (or jumps) that are not suicides fall into exactly one of three kinds,
/// those that `captures_checks`, `captures_check_threats` and `captures_boring` (or the
/// jump generators) list: checks, check threats, and the rest, safe wazir moves included.
pub proof fn lemma_kinds_partition(s: PositionView, w: Square, capture: bool, m: RegularMove)
    ensures
        ({
            let nw = m.colored_piece.spec_piece() != Piece::Wazir;
            let checks = spec_is_kind_move(s, MaskKind::Checks, w, capture, m) && nw;
            let threats = spec_is_kind_move(s, MaskKind::CheckThreats, w, capture, m) && nw;
            let boring = (spec_is_kind_move(s, MaskKind::Boring, w, capture, m) && nw) || spec_is_safe_wazir_move(
                s,
                capture,
                m,
            );
            let all = (spec_is_kind_move(s, MaskKind::All, Square::A1, capture, m) && nw) || spec_is_safe_wazir_move(
                s,
                capture,
                m,
            );
            &&& all <==> (checks || threats || boring)
            &&& !(checks && threats)
            &&& !(checks && boring)
            &&& !(threats && boring)
            &&& (spec_is_kind_move(s, MaskKind::Boring, w, capture, m) && nw) ==> !spec_move_set(
                m.colored_piece.spec_piece(),
                w,
            ).contains(m.to) && !spec_double_move_set(m.colored_piece.spec_piece(), w).contains(m.to)
        }),
{
    lemma_move_kinds(s, w, capture, m);
    lemma_single_double_disjoint(m.colored_piece.spec_piece(), w, m.to);
    lemma_reaches_symmetric(m.colored_piece.spec_piece(), m.to, w);
}

/// No leap ends where it starts.
pub proof fn lemma_reaches_irreflexive(piece: Piece, f: Square)
    ensures
        !spec_reaches(piece, f, f),
{
    if spec_reaches(piece, f, f) {
        let i = choose|i: int|
            0 <= i < spec_directions(piece).len() && #[trigger] spec_square_add(
                f.spec_index() as int,
                spec_directions(piece)[i].0,
                spec_directions(piece)[i].1,
            ) == Some(f);
        let (dx, dy) = spec_directions(piece)[i];
        let k = f.spec_index() as int;
        assert(k < 64);
        assert(-2 <= dx <= 2 && -2 <= dy <= 2 && !(dx == 0 && dy == 0));
        let x = sq_x(k) + dx;
        let y = sq_y(k) + dy;
        assert(Square::spec_from_index(y * 8 + x) == f);
        assert(0 <= y * 8 + x < 64);
        assert(y * 8 + x == k);
        assert(k == sq_y(k) * 8 + sq_x(k));
    }
}

/// A legal move sent in short notation is read back as the same move.
pub proof fn lemma_short_move_roundtrip(s: PositionView, m: Move)
    requires
        s.2.len() == 64,
        match m {
            Move::Setup(x) => spec_setup_legal(s, x),
            Move::Regular(r) => spec_regular_legal(s, r),
        },
    ensures
        spec_move_from_short(s, spec_short_of_move(m)) == Some(m),
{
    if let Move::Regular(r) = m {
        let me = spec_to_move(s.1);
        let to = r.to;
        let cp = r.colored_piece;
        match r.from {
            Some(f) => {
                lemma_reaches_irreflexive(cp.spec_piece(), f);
                lemma_square_index_injective(f, to);
                assert(f != to);
                assert(step_b1(s, r)[to.spec_index() as int] == s.2[to.spec_index() as int]);
                match r.captured {
                    None => {
                        assert(step_b2(s, r)[to.spec_index() as int] == s.2[to.spec_index() as int]);
                    },
                    Some(p) => {
                        assert(s.2[to.spec_index() as int] == Some(ColoredPiece::spec_new(p, me.spec_opposite())));
                    },
                }
            },
            None => {
                assert(step_b2(s, r)[to.spec_index() as int] == s.2[to.spec_index() as int]);
            },
        }
    }
}

/// In a valid position of the game, the captures of the opponent's wazir are exactly the
/// pseudocaptures onto its square; each takes the wazir, can be played, and ends the game
/// with a win for the side to move.
pub proof fn lemma_captures_of_wazir_win(s: PositionView, m: RegularMove)
    requires
        spec_valid(s.0, s.1, s.2, s.3),
        s.0 == Stage::Regular,
    ensures
        ({
            let me = spec_to_move(s.1);
            let w = spec_the_wazir(s, me.spec_opposite());
            &&& spec_is_capture_of(s, w, m) <==> (spec_is_kind_move(s, MaskKind::All, Square::A1, true, m)
                && m.to == w)
            &&& spec_is_capture_of(s, w, m) ==> {
                &&& m.captured == Some(Piece::Wazir)
                &&& spec_regular_step(s, m) matches Some(t) && t.0 == Stage::End(spec_win(me))
            }
        }),
{
    let me = spec_to_move(s.1);
    let opp = me.spec_opposite();
    let w = spec_the_wazir(s, opp);
    lemma_has_wazir(s, opp);
    assert(s.2[w.spec_index() as int] == Some(spec_wazir(opp)));
    if spec_is_capture_of(s, w, m) {
        assert(m.captured == Some(Piece::Wazir));
        assert(spec_is_pseudomove(s, m));
        lemma_pseudomoves_legal(s, m);
    }
}

/// From every square each piece has somewhere to leap to.
proof fn lemma_has_leap(p: Piece, sq: Square)
    ensures
        exists|mid: Square| spec_reaches(p, sq, mid),
{
    let i = sq.spec_index() as int;
    assert(0 <= i < 64);
    let x = sq_x(i);
    let y = sq_y(i);
    let d = spec_directions(p);
    let k: int = match p {
        Piece::Alfil | Piece::Ferz => if x < 4 {
            if y < 4 {
                3
            } else {
                1
            }
        } else {
            if y < 4 {
                2
            } else {
                0
            }
        },
        Piece::Knight => if x < 4 {
            if y < 4 {
                7
            } else {
                1
            }
        } else {
            if y < 4 {
                6
            } else {
                0
            }
        },
        _ => if y < 4 {
            3
        } else {
            0
        },
    };
    assert(0 <= k < d.len());
    assert(spec_square_add(i, d[k].0, d[k].1) is Some);
    let mid = spec_square_add(i, d[k].0, d[k].1)->0;
    assert(spec_reaches(p, sq, mid));
}

/// Two leaps can bring a piece back to where it started: the double move set of a square
/// (what `double_move_bitboard` gives) holds the square itself.
pub proof fn lemma_double_move_contains_origin(p: Piece, sq: Square)
    ensures
        spec_double_move_set(p, sq).contains(sq),
{
    lemma_has_leap(p, sq);
    let mid = choose|mid: Square| spec_reaches(p, sq, mid);
    lemma_reaches_symmetric(p, sq, mid);
    assert(spec_reaches(p, sq, mid) && spec_reaches(p, mid, sq));
}

/// In a valid position, a short move that reads as a full move reads as a legal one, whose
/// short form it is. With `lemma_short_move_roundtrip`: the move a short move stands for is
/// the legal move with that short form.
pub proof fn lemma_short_move_legal(s: PositionView, sm: ShortMove)
    requires
        spec_valid(s.0, s.1, s.2, s.3),
    ensures
        spec_move_from_short(s, sm) matches Some(m) ==> {
            &&& spec_short_of_move(m) == sm
            &&& match m {
                Move::Setup(x) => spec_setup_legal(s, x),
                Move::Regular(r) => spec_regular_step(s, r) is Some,
            }
        },
{
    if let Some(Move::Regular(r)) = spec_move_from_short(s, sm) {
        let me = spec_to_move(s.1);
        let cp = r.colored_piece;
        let to = r.to.spec_index() as int;
        assert(s.0 == Stage::Regular);
        assert(ColoredPiece::spec_new(cp.spec_piece(), cp.spec_color()) == cp);
        match r.from {
            None => {
                lemma_no_captured_wazir(s);
                assert(cp.spec_piece() != Piece::Wazir) by {
                    if cp.spec_piece() == Piece::Wazir {
                        assert(cp == spec_wazir(me));
                    }
                }
                assert(spec_is_kind_drop(s, MaskKind::All, Square::A1, r));
            },
            Some(f) => {
                if s.2[to] is Some {
                    assert(spec_is_kind_move(s, MaskKind::All, Square::A1, true, r));
                } else {
                    assert(spec_is_kind_move(s, MaskKind::All, Square::A1, false, r));
                }
            },
        }
        assert(spec_is_pseudomove(s, r));
        lemma_pseudomoves_legal(s, r);
    }
}

/// The drops fall into exactly one of three kinds, those that `drops_checks`,
/// `drops_check_threats` and `drops_boring` list: checks, check threats, and the rest.
/// A boring drop lands neither one nor two leaps of its piece away from `w`.
pub proof fn lemma_drop_kinds_partition(s: PositionView, w: Square, m: RegularMove)
    ensures
        ({
            let checks = spec_is_kind_drop(s, MaskKind::Checks, w, m);
            let threats = spec_is_kind_drop(s, MaskKind::CheckThreats, w, m);
            let boring = spec_is_kind_drop(s, MaskKind::Boring, w, m);
            let all = spec_is_kind_drop(s, MaskKind::All, Square::A1, m);
            let p = m.colored_piece.spec_piece();
            &&& all <==> (checks || threats || boring)
            &&& !(checks && threats)
            &&& !(checks && boring)
            &&& !(threats && boring)
            &&& boring ==> !spec_move_set(p, w).contains(m.to) && !spec_double_move_set(p, w).contains(m.to)
        }),
{
    lemma_move_kinds(s, w, true, m);
    lemma_single_double_disjoint(m.colored_piece.spec_piece(), w, m.to);
    lemma_reaches_symmetric(m.colored_piece.spec_piece(), m.to, w);
}

/// No two piece kinds share a leap: the leap from `x` to `y` tells the piece.
proof fn lemma_reaches_piece_unique(p: Piece, q: Piece, x: Square, y: Square)
    requires
        spec_reaches(p, x, y),
        spec_reaches(q, x, y),
    ensures
        p == q,
{
    let dp = spec_directions(p);
    let dq = spec_directions(q);
    let i = choose|i: int| 0 <= i < dp.len() && #[trigger] spec_square_add(x.spec_index() as int, dp[i].0, dp[i].1) == Some(y);
    let j = choose|j: int| 0 <= j < dq.len() && #[trigger] spec_square_add(x.spec_index() as int, dq[j].0, dq[j].1) == Some(y);
    let xi = x.spec_index() as int;
    let yi = y.spec_index() as int;
    assert(0 <= xi < 64 && 0 <= yi < 64);
    assert(yi == (xi / 8 + dp[i].1) * 8 + (xi % 8 + dp[i].0));
    assert(yi == (xi / 8 + dq[j].1) * 8 + (xi % 8 + dq[j].0));
    assert(yi % 8 == xi % 8 + dp[i].0 && yi / 8 == xi / 8 + dp[i].1);
    assert(yi % 8 == xi % 8 + dq[j].0 && yi / 8 == xi / 8 + dq[j].1);
    assert(dp[i] == dq[j]);
    assert(p == q) by {
        match p {
            Piece::Alfil => {},
            Piece::Dabbaba => {},
            Piece::Ferz => {},
            Piece::Knight => {},
            Piece::Wazir => {},
        }
    }
}

/// Keys in order mean no move twice.
pub proof fn lemma_gen_sorted_no_duplicates(v: Seq<RegularMove>)
    requires
        spec_gen_sorted(v),
    ensures
        v.no_duplicates(),
{
    assert forall|a: int, b: int| 0 <= a < v.len() && 0 <= b < v.len() && a != b implies v[a] != v[b] by {
        if a < b {
            assert(gen_key(v[a]) < gen_key(v[b]));
        } else {
            assert(gen_key(v[b]) < gen_key(v[a]));
        }
    }
}

/// In a valid position where the side to move is in check, the check evasions in the
/// order `check_evasions` lists them hold no move twice, but possibly one that takes the
/// opponent's wazir (the wazir taking a checking wazir is both a capture of the attacker
/// and a wazir capture).
pub proof fn lemma_check_evasions_once(s: PositionView, v: Seq<RegularMove>, k1: int, k2: int, a: int, b: int)
    requires
        spec_valid(s.0, s.1, s.2, s.3),
        s.0 == Stage::Regular,
        spec_in_check(s, spec_to_move(s.1)),
        evasions_in_order(s, v, k1, k2),
        0 <= a < b < v.len(),
        v[a].captured != Some(Piece::Wazir),
    ensures
        v[a] != v[b],
{
    let m = v[a];
    if v[b] == m {
        let me = spec_to_move(s.1);
        if b < k1 {
            assert(v.subrange(0, k1)[a] == m && v.subrange(0, k1)[b] == m);
        } else if a >= k2 {
            assert(v.subrange(k2, v.len() as int)[a - k2] == m && v.subrange(k2, v.len() as int)[b - k2] == m);
        } else if k1 <= a && b < k2 {
            assert(v.subrange(k1, k2)[a - k1] == m && v.subrange(k1, k2)[b - k1] == m);
        } else if a < k1 && b < k2 {
            assert(spec_is_capture_of_attacker(s, m));
            assert(spec_is_safe_wazir_move(s, true, m));
            lemma_wazir_takes_attacker(s, m);
        } else {
            assert(m.captured is Some);
            assert(v[b].captured is None);
        }
    }
}

/// The moves of a side not in check, in the order `moves_not_in_check` lists them, hold no
/// move twice: captures, jumps and drops differ, and each part is in key order.
pub proof fn lemma_moves_in_order_no_duplicates(s: PositionView, v: Seq<RegularMove>, k1: int, k2: int)
    requires
        moves_in_order(s, v, k1, k2),
    ensures
        v.no_duplicates(),
{
    assert forall|a: int, b: int| 0 <= a < b < v.len() implies v[a] != v[b] by {
        if b < k1 {
            assert(v.subrange(0, k1)[a] == v[a] && v.subrange(0, k1)[b] == v[b]);
        } else if a >= k2 {
            assert(v.subrange(k2, v.len() as int)[a - k2] == v[a] && v.subrange(k2, v.len() as int)[b - k2]
                == v[b]);
        } else if k1 <= a && b < k2 {
            assert(v.subrange(k1, k2)[a - k1] == v[a] && v.subrange(k1, k2)[b - k1] == v[b]);
        } else if a < k1 && b < k2 {
            assert(spec_is_safe_capture(s, v[a]) && spec_is_safe_jump(s, v[b]));
            assert(v[a].captured is Some && v[b].captured is None);
        } else if a < k1 {
            assert(spec_is_safe_capture(s, v[a]));
            assert(v[a].from is Some && v[b].from is None);
        } else {
            assert(spec_is_safe_jump(s, v[a]));
            assert(v[a].from is Some && v[b].from is None);
        }
    }
}

/// The wazir can only take a checking piece that is the opponent's wazir: no other piece
/// attacks from a square next to it.
proof fn lemma_wazir_takes_attacker(s: PositionView, m: RegularMove)
    requires
        spec_valid(s.0, s.1, s.2, s.3),
        s.0 == Stage::Regular,
        spec_is_capture_of_attacker(s, m),
        m.colored_piece.spec_piece() == Piece::Wazir,
    ensures
        m.captured == Some(Piece::Wazir),
{
    let me = spec_to_move(s.1);
    let w = spec_the_wazir(s, me);
    let t = choose|t: Square|
        spec_attackers(s, w, me.spec_opposite()) == set![t] && #[trigger] spec_is_capture_of(s, t, m);
    let f = m.from->0;
    assert(m.colored_piece == spec_wazir(me));
    lemma_wazir_unique(s, me, f);
    assert(spec_attackers(s, w, me.spec_opposite()).contains(t));
    let attacker = s.2[t.spec_index() as int]->0.spec_piece();
    assert(spec_reaches(attacker, t, w));
    lemma_reaches_symmetric(attacker, t, w);
    assert(spec_reaches(Piece::Wazir, w, t));
    lemma_reaches_piece_unique(attacker, Piece::Wazir, w, t);
}

/// What `moves` lists: check evasions for a side in check, else every move but suicides.
pub open spec fn spec_is_listed_move(s: PositionView, m: RegularMove) -> bool {
    if spec_in_check(s, spec_to_move(s.1)) {
        spec_is_check_evasion(s, m)
    } else {
        spec_is_move_not_in_check(s, m)
    }
}

/// In a valid position of the game, `moves` lists, apart from captures of the opponent's
/// wazir (which end the game whatever they leave attacked), exactly the moves the rules
/// allow after which the mover's wazir is not attacked: all moves except suicides. With
/// `lemma_check_evasions_once` and `lemma_moves_in_order_no_duplicates`, each at most once.
pub proof fn lemma_listed_moves_are_safe_moves(s: PositionView, m: RegularMove)
    requires
        spec_valid(s.0, s.1, s.2, s.3),
        s.0 == Stage::Regular,
        m.captured != Some(Piece::Wazir),
    ensures
        spec_is_listed_move(s, m) <==> (spec_is_pseudomove(s, m) && spec_leaves_wazir_safe(s, m)),
{
    if spec_in_check(s, spec_to_move(s.1)) {
        lemma_check_evasions_safe(s, m);
        if spec_is_check_evasion(s, m) && m.colored_piece.spec_piece() == Piece::Wazir {
            if spec_is_capture_of_attacker(s, m) && !spec_is_safe_wazir_move(s, true, m)
                && !spec_is_safe_wazir_move(s, false, m) {
                lemma_wazir_takes_attacker(s, m);
            }
        }
    } else {
        lemma_moves_not_in_check_safe(s, m);
    }
}

} // verus!
