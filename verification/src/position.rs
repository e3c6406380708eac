use crate::bitboard::Bitboard;
use crate::board::{
    count_piece_below, lemma_count_piece_update, spec_board_hash, spec_color_set, spec_count_piece,
    spec_empty_board, spec_empty_set, spec_piece_set, Board,
};
use crate::captured::{spec_captured_hash, spec_no_captures, spec_total_count, Captured};
use crate::color::{spec_initial_squares, Color, NUM_COLORS};
use crate::error::Invalid;
use crate::movegen::{spec_reaches, validate_from_to};
use crate::moves::{count_in, spec_valid_pieces, InvalidMove, Move, RegularMove, SetupMove};
use crate::piece::{group_piece, spec_initial_count, ColoredPiece, Piece, NUM_COLORED_PIECES, NUM_PIECES};
use crate::square::{group_square, lemma_square_index_injective, Square, NUM_SQUARES};
use crate::symmetry::Symmetry;
use crate::zobrist::{spec_to_move_key, to_move};
use vstd::prelude::*;

verus! {

broadcast use {group_square, group_piece};

/// Number of moves after which the game is a draw, the two setup moves included.
pub const MAX_MOVES_IN_GAME: usize = 102;

/// How a game ended.
#[derive(Debug, Clone, Copy, PartialEq, Eq, Hash, Structural)]
pub enum Outcome {
    RedWin,
    Draw,
    BlueWin,
}

/// The win of a color.
pub open spec fn spec_win(color: Color) -> Outcome {
    match color {
        Color::Red => Outcome::RedWin,
        Color::Blue => Outcome::BlueWin,
    }
}

impl Outcome {
    pub fn win(color: Color) -> (r: Outcome)
        ensures
            r == spec_win(color),
    {
        match color {
            Color::Red => Outcome::RedWin,
            Color::Blue => Outcome::BlueWin,
        }
    }

    /// 1 for a red win, 0 for a draw, -1 for a blue win.
    pub fn red_score(self) -> (r: i32)
        ensures
            r == match self {
                Outcome::RedWin => 1int,
                Outcome::Draw => 0int,
                Outcome::BlueWin => -1int,
            },
    {
        match self {
            Outcome::RedWin => 1,
            Outcome::Draw => 0,
            Outcome::BlueWin => -1,
        }
    }
}

/// The phase of the game.
#[derive(Debug, Clone, Copy, PartialEq, Eq, Hash, Structural)]
pub enum Stage {
    Setup,
    Regular,
    End(Outcome),
}

/// The color to move after `move_number` moves.
pub open spec fn spec_to_move(move_number: nat) -> Color {
    Color::spec_from_index((move_number % 2) as int)
}

/// The number of pieces of a kind in the game, on the board and captured, both colors.
pub open spec fn spec_total_in_game(b: Seq<Option<ColoredPiece>>, c: Seq<nat>, p: Piece) -> nat {
    spec_count_piece(b, ColoredPiece::spec_new(p, Color::Red)) + spec_count_piece(
        b,
        ColoredPiece::spec_new(p, Color::Blue),
    ) + c[ColoredPiece::spec_new(p, Color::Red).spec_index() as int] + c[ColoredPiece::spec_new(
        p,
        Color::Blue,
    ).spec_index() as int]
}

/// The wazir of a color.
pub open spec fn spec_wazir(color: Color) -> ColoredPiece {
    ColoredPiece::spec_new(Piece::Wazir, color)
}

/// A position that can arise in a game: the conditions `from_parts` checks.
pub open spec fn spec_valid(stage: Stage, move_number: nat, b: Seq<Option<ColoredPiece>>, c: Seq<nat>) -> bool {
    let to_move = spec_to_move(move_number);
    &&& b.len() == 64
    &&& c.len() == 10
    &&& stage != Stage::Setup ==> forall|p: Piece| #[trigger] spec_total_in_game(b, c, p) == 2 * spec_initial_count(p)
    &&& match stage {
        Stage::Setup => move_number < 2,
        Stage::Regular => 2 <= move_number < 102,
        Stage::End(Outcome::Draw) => move_number == 102,
        Stage::End(outcome) => 2 <= move_number <= 102 && outcome == spec_win(to_move.spec_opposite()),
    }
    &&& match stage {
        Stage::Setup => {
            &&& forall|cp: ColoredPiece|
                #[trigger] spec_count_piece(b, cp) == if cp.spec_color().spec_index() < to_move.spec_index() {
                    spec_initial_count(cp.spec_piece())
                } else {
                    0
                }
            &&& forall|cp: ColoredPiece|
                #[trigger] spec_piece_set(b, cp).subset_of(spec_initial_squares(cp.spec_color()))
            &&& forall|cp: ColoredPiece| #[trigger] c[cp.spec_index() as int] == 0
        },
        Stage::Regular | Stage::End(Outcome::Draw) => forall|color: Color|
            #[trigger] spec_count_piece(b, spec_wazir(color)) == 1,
        Stage::End(_) => {
            &&& spec_count_piece(b, spec_wazir(to_move.spec_opposite())) == 1
            &&& c[spec_wazir(to_move.spec_opposite()).spec_index() as int] == 1
        },
    }
}

/// Square index where the `i`-th piece of a setup move goes, and back.
pub open spec fn spec_setup_square(color: Color, i: int) -> int {
    match color {
        Color::Red => i,
        Color::Blue => 63 - i,
    }
}

/// Square index `k` is filled by a setup move of `color`.
pub open spec fn spec_in_setup_range(color: Color, k: int) -> bool {
    match color {
        Color::Red => 0 <= k < 16,
        Color::Blue => 48 <= k < 64,
    }
}

/// The board after a setup move.
pub open spec fn spec_setup_board(b: Seq<Option<ColoredPiece>>, m: SetupMove) -> Seq<Option<ColoredPiece>> {
    Seq::new(
        64,
        |k: int|
            if spec_in_setup_range(m.color, k) {
                Some(ColoredPiece::spec_new(m.pieces@[spec_setup_square(m.color, k)], m.color))
            } else {
                b[k]
            },
    )
}

/// The view of a position: stage, move number, board and captured counts.
pub type PositionView = (Stage, nat, Seq<Option<ColoredPiece>>, Seq<nat>);

/// A setup move is legal: it is the setup stage, the mover's turn, and the starting set.
pub open spec fn spec_setup_legal(s: PositionView, m: SetupMove) -> bool {
    &&& s.0 == Stage::Setup
    &&& m.color == spec_to_move(s.1)
    &&& spec_valid_pieces(m.pieces@)
}

/// The position after a legal setup move.
pub open spec fn spec_setup_result(s: PositionView, m: SetupMove) -> PositionView {
    (if s.1 + 1 == 2 {
        Stage::Regular
    } else {
        Stage::Setup
    }, s.1 + 1, spec_setup_board(s.2, m), s.3)
}

/// The board after the moving piece leaves its square (a drop takes nothing from the board).
pub open spec fn step_b1(s: PositionView, m: RegularMove) -> Seq<Option<ColoredPiece>> {
    match m.from {
        None => s.2,
        Some(f) => s.2.update(f.spec_index() as int, None),
    }
}

/// The captured counts after the dropped piece leaves the hand.
pub open spec fn step_c1(s: PositionView, m: RegularMove) -> Seq<nat> {
    let cp = m.colored_piece;
    match m.from {
        None => s.3.update(cp.spec_index() as int, (s.3[cp.spec_index() as int] - 1) as nat),
        Some(f) => s.3,
    }
}

/// The board after the captured piece is taken off.
pub open spec fn step_b2(s: PositionView, m: RegularMove) -> Seq<Option<ColoredPiece>> {
    match m.captured {
        None => step_b1(s, m),
        Some(p) => step_b1(s, m).update(m.to.spec_index() as int, None),
    }
}

/// The captured counts after the captured piece joins the mover's hand.
pub open spec fn step_c2(s: PositionView, m: RegularMove) -> Seq<nat> {
    let me = spec_to_move(s.1);
    let c1 = step_c1(s, m);
    match m.captured {
        None => c1,
        Some(p) => c1.update(
            ColoredPiece::spec_new(p, me).spec_index() as int,
            c1[ColoredPiece::spec_new(p, me).spec_index() as int] + 1,
        ),
    }
}

/// The board after the moving piece lands.
pub open spec fn step_b3(s: PositionView, m: RegularMove) -> Seq<Option<ColoredPiece>> {
    step_b2(s, m).update(m.to.spec_index() as int, Some(m.colored_piece))
}

/// The regular move is legal in the position. A drop lands on an empty square only.
pub open spec fn spec_regular_legal(s: PositionView, m: RegularMove) -> bool {
    let me = spec_to_move(s.1);
    let opp = me.spec_opposite();
    let cp = m.colored_piece;
    let to = m.to.spec_index() as int;
    &&& s.0 == Stage::Regular
    &&& cp.spec_color() == me
    &&& match m.from {
        None => s.3[cp.spec_index() as int] > 0 && m.captured is None,
        Some(f) => spec_reaches(cp.spec_piece(), f, m.to) && s.2[f.spec_index() as int] == Some(cp),
    }
    &&& match m.captured {
        None => true,
        Some(p) => step_b1(s, m)[to] == Some(ColoredPiece::spec_new(p, opp))
            && step_c1(s, m)[ColoredPiece::spec_new(p, me).spec_index() as int] < spec_total_count(p),
    }
    &&& step_b2(s, m)[to] is None
}

/// The stage after a legal regular move: a wazir capture wins, the last move draws.
pub open spec fn step_stage(s: PositionView, m: RegularMove) -> Stage {
    if m.captured == Some(Piece::Wazir) {
        Stage::End(spec_win(spec_to_move(s.1)))
    } else if s.1 + 1 == 102 {
        Stage::End(Outcome::Draw)
    } else {
        Stage::Regular
    }
}

/// The position after a regular move, `None` when the move is not legal.
pub open spec fn spec_regular_step(s: PositionView, m: RegularMove) -> Option<PositionView> {
    if spec_regular_legal(s, m) {
        Some((step_stage(s, m), s.1 + 1, step_b3(s, m), step_c2(s, m)))
    } else {
        None
    }
}

/// Hash of a position: side to move, board and captured pieces.
pub open spec fn spec_position_hash(s: PositionView) -> u64 {
    spec_to_move_key(spec_to_move(s.1)) ^ spec_board_hash(s.2) ^ spec_captured_hash(s.3)
}

/// A game position.
#[derive(Debug, Clone, Copy)]
pub struct Position {
    stage: Stage,
    move_number: u8,
    board: Board,
    captured: Captured,
}

impl View for Position {
    type V = PositionView;

    closed spec fn view(&self) -> PositionView {
        (self.stage, self.move_number as nat, self.board@, self.captured@)
    }
}

proof fn lemma_count_zero(b: Seq<Option<ColoredPiece>>, cp: ColoredPiece, n: nat, k: int)
    requires
        count_piece_below(b, cp, n) == 0,
        0 <= k < n,
    ensures
        b[k] != Some(cp),
    decreases n,
{
    if k < n - 1 {
        lemma_count_zero(b, cp, (n - 1) as nat, k);
    }
}

/// Two different squares holding the same piece count twice.
proof fn lemma_count_two(b: Seq<Option<ColoredPiece>>, cp: ColoredPiece, n: nat, k1: int, k2: int)
    requires
        0 <= k1 < k2 < n,
        b[k1] == Some(cp),
        b[k2] == Some(cp),
    ensures
        count_piece_below(b, cp, n) >= 2,
    decreases n,
{
    if k2 < n - 1 {
        lemma_count_two(b, cp, (n - 1) as nat, k1, k2);
    } else {
        lemma_count_one(b, cp, (n - 1) as nat, k1);
    }
}

/// A square holding a piece counts it at least once.
pub proof fn lemma_count_one(b: Seq<Option<ColoredPiece>>, cp: ColoredPiece, n: nat, k: int)
    requires
        0 <= k < n,
        b[k] == Some(cp),
    ensures
        count_piece_below(b, cp, n) >= 1,
    decreases n,
{
    if k < n - 1 {
        lemma_count_one(b, cp, (n - 1) as nat, k);
    }
}

/// The square of a color's wazir (meaningful when it is on the board).
pub open spec fn spec_the_wazir(s: PositionView, color: Color) -> Square {
    choose|w: Square| s.2[w.spec_index() as int] == Some(spec_wazir(color))
}

/// The color's wazir is on the board.
pub open spec fn spec_has_wazir(s: PositionView, color: Color) -> bool {
    exists|w: Square| s.2[w.spec_index() as int] == Some(spec_wazir(color))
}

/// In a valid position each color has at most one wazir on the board, so the wazir's
/// square is determined.
pub proof fn lemma_wazir_unique(s: PositionView, color: Color, w: Square)
    requires
        spec_valid(s.0, s.1, s.2, s.3),
        s.2[w.spec_index() as int] == Some(spec_wazir(color)),
    ensures
        spec_the_wazir(s, color) == w,
{
    let b = s.2;
    let x = spec_the_wazir(s, color);
    assert(b[x.spec_index() as int] == Some(spec_wazir(color)));
    assert(spec_count_piece(b, spec_wazir(color)) <= 1) by {
        match s.0 {
            Stage::Setup => {
                lemma_valid_setup_piece(s.1, b, s.3, spec_wazir(color));
            },
            Stage::Regular => {},
            Stage::End(Outcome::Draw) => {},
            Stage::End(_) => {
                assert(spec_total_in_game(b, s.3, Piece::Wazir) == 2);
                assert(spec_wazir(Color::Red) == ColoredPiece::spec_new(Piece::Wazir, Color::Red));
            },
        }
    }
    if x != w {
        if x.spec_index() < w.spec_index() {
            lemma_count_two(b, spec_wazir(color), 64, x.spec_index() as int, w.spec_index() as int);
        } else {
            lemma_square_index_injective(x, w);
            lemma_count_two(b, spec_wazir(color), 64, w.spec_index() as int, x.spec_index() as int);
        }
    }
}

proof fn lemma_to_move_next(mn: nat)
    ensures
        spec_to_move(mn + 1) == spec_to_move(mn).spec_opposite(),
{
}

/// In a valid regular or drawn position nobody holds a captured wazir.
pub proof fn lemma_no_captured_wazir(s: PositionView)
    requires
        spec_valid(s.0, s.1, s.2, s.3),
        s.0 == Stage::Regular || s.0 == Stage::End(Outcome::Draw),
    ensures
        s.3[spec_wazir(Color::Red).spec_index() as int] == 0,
        s.3[spec_wazir(Color::Blue).spec_index() as int] == 0,
{
    assert(spec_count_piece(s.2, spec_wazir(Color::Red)) == 1);
    assert(spec_count_piece(s.2, spec_wazir(Color::Blue)) == 1);
    assert(spec_total_in_game(s.2, s.3, Piece::Wazir) == 2);
}

/// How a legal regular move changes the number of squares holding `x`.
proof fn lemma_step_count(s: PositionView, m: RegularMove, x: ColoredPiece)
    requires
        s.2.len() == 64,
        s.3.len() == 10,
    ensures
        spec_count_piece(step_b3(s, m), x) + (if m.from is Some && s.2[m.from->0.spec_index() as int]
            == Some(x) {
            1int
        } else {
            0
        }) + (if m.captured is Some && step_b1(s, m)[m.to.spec_index() as int] == Some(x) {
            1int
        } else {
            0
        }) + (if step_b2(s, m)[m.to.spec_index() as int] == Some(x) {
            1int
        } else {
            0
        }) == spec_count_piece(s.2, x) + (if x == m.colored_piece {
            1int
        } else {
            0
        }),
{
    let to = m.to.spec_index() as int;
    match m.from {
        Some(f) => {
            lemma_count_piece_update(s.2, x, f.spec_index() as int, None, 64);
        },
        None => {},
    }
    match m.captured {
        Some(p) => {
            lemma_count_piece_update(step_b1(s, m), x, to, None, 64);
        },
        None => {},
    }
    lemma_count_piece_update(step_b2(s, m), x, to, Some(m.colored_piece), 64);
}

proof fn lemma_step_total(s: PositionView, m: RegularMove, p: Piece)
    requires
        spec_valid(s.0, s.1, s.2, s.3),
        spec_regular_legal(s, m),
    ensures
        spec_total_in_game(step_b3(s, m), step_c2(s, m), p) == 2 * spec_initial_count(p),
{
    let (stage, mn, b, c) = s;
    let me = spec_to_move(mn);
    let cp = m.colored_piece;
    lemma_no_captured_wazir(s);
    assert(ColoredPiece::spec_new(cp.spec_piece(), cp.spec_color()) == cp);
    if m.from is None {
        assert(cp.spec_piece() != Piece::Wazir) by {
            if cp.spec_piece() == Piece::Wazir {
                assert(cp == spec_wazir(me));
            }
        }
    }
    let xr = ColoredPiece::spec_new(p, Color::Red);
    let xb = ColoredPiece::spec_new(p, Color::Blue);
    assert(spec_total_in_game(b, c, p) == 2 * spec_initial_count(p));
    lemma_step_count(s, m, xr);
    lemma_step_count(s, m, xb);
}

proof fn lemma_step_wazir(s: PositionView, m: RegularMove, color: Color)
    requires
        spec_valid(s.0, s.1, s.2, s.3),
        spec_regular_legal(s, m),
    ensures
        spec_count_piece(step_b3(s, m), spec_wazir(color)) == 1 || (m.captured == Some(Piece::Wazir)
            && color == spec_to_move(s.1).spec_opposite()),
{
    let (stage, mn, b, c) = s;
    let me = spec_to_move(mn);
    let cp = m.colored_piece;
    let w = spec_wazir(color);
    lemma_no_captured_wazir(s);
    assert(ColoredPiece::spec_new(cp.spec_piece(), cp.spec_color()) == cp);
    if m.from is None {
        assert(cp.spec_piece() != Piece::Wazir) by {
            if cp.spec_piece() == Piece::Wazir {
                assert(cp == spec_wazir(me));
            }
        }
    }
    assert(spec_count_piece(b, w) == 1);
    lemma_step_count(s, m, w);
}

/// A legal regular move from a valid position gives a valid position.
pub proof fn lemma_regular_step_valid(s: PositionView, m: RegularMove)
    requires
        spec_valid(s.0, s.1, s.2, s.3),
        spec_regular_legal(s, m),
    ensures
        spec_valid(step_stage(s, m), s.1 + 1, step_b3(s, m), step_c2(s, m)),
{
    let (stage, mn, b, c) = s;
    let me = spec_to_move(mn);
    let b3 = step_b3(s, m);
    let c2 = step_c2(s, m);
    lemma_no_captured_wazir(s);
    lemma_to_move_next(mn);
    assert forall|p: Piece| #[trigger] spec_total_in_game(b3, c2, p) == 2 * spec_initial_count(p) by {
        lemma_step_total(s, m, p);
    }
    if m.captured == Some(Piece::Wazir) {
        lemma_step_wazir(s, m, me);
        assert(c2[spec_wazir(me).spec_index() as int] == 1);
    } else {
        assert forall|color: Color| #[trigger] spec_count_piece(b3, spec_wazir(color)) == 1 by {
            lemma_step_wazir(s, m, color);
        }
    }
}

impl Position {
    #[verifier::type_invariant]
    spec fn inv(self) -> bool {
        spec_valid(self.stage, self.move_number as nat, self.board@, self.captured@)
    }

    /// Every position is valid.
    pub fn check_valid(&self) -> (r: bool)
        ensures
            r,
            spec_valid(self@.0, self@.1, self@.2, self@.3),
    {
        proof {
            use_type_invariant(self);
        }
        true
    }

    /// Builds a position from its parts, checking that it can arise in a game.
    pub fn from_parts(stage: Stage, move_number: usize, board: Board, captured: Captured) -> (r: Result<
        Position,
        Invalid,
    >)
        ensures
            r is Ok <==> spec_valid(stage, move_number as nat, board@, captured@),
            r matches Ok(p) ==> p@ == (stage, move_number as nat, board@, captured@),
    {
        proof {
            board.lemma_len();
            captured.lemma_len();
        }
        let to_move = Color::from_index(move_number % NUM_COLORS);
        let ghost b = board@;
        let ghost c = captured@;
        let is_setup = match stage {
            Stage::Setup => true,
            _ => false,
        };
        if !is_setup {
            let mut j: usize = 0;
            while j < NUM_PIECES
                invariant
                    j <= 5,
                    stage != Stage::Setup,
                    b == board@,
                    c == captured@,
                    forall|k: int|
                        0 <= k < j ==> #[trigger] spec_total_in_game(b, c, Piece::spec_from_index(k)) == 2
                            * spec_initial_count(Piece::spec_from_index(k)),
                decreases 5 - j,
            {
                let piece = Piece::from_index(j);
                let red = piece.with_color(Color::Red);
                let blue = piece.with_color(Color::Blue);
                let count = board.count_piece(red) + board.count_piece(blue) + captured.get(red)
                    + captured.get(blue);
                proof {
                    assert(spec_total_in_game(b, c, piece) == count);
                    assert(spec_valid(stage, move_number as nat, b, c) ==> spec_total_in_game(b, c, piece) == 2 * spec_initial_count(piece));
                }
                if count != piece.total_count() {
                    return Err(Invalid);
                }
                j += 1;
            }
            proof {
                assert forall|p: Piece| #[trigger] spec_total_in_game(b, c, p) == 2 * spec_initial_count(p) by {
                    assert(Piece::spec_from_index(p.spec_index() as int) == p);
                    assert(spec_total_in_game(b, c, Piece::spec_from_index(p.spec_index() as int)) == 2
                        * spec_initial_count(Piece::spec_from_index(p.spec_index() as int)));
                }
            }
        }
        match stage {
            Stage::Setup => {
                if move_number >= NUM_COLORS {
                    return Err(Invalid);
                }
            },
            Stage::Regular => {
                if !(NUM_COLORS <= move_number && move_number < MAX_MOVES_IN_GAME) {
                    return Err(Invalid);
                }
            },
            Stage::End(Outcome::Draw) => {
                if move_number != MAX_MOVES_IN_GAME {
                    return Err(Invalid);
                }
            },
            Stage::End(outcome) => {
                let expected = Outcome::win(to_move.opposite());
                let same = match (outcome, expected) {
                    (Outcome::RedWin, Outcome::RedWin) => true,
                    (Outcome::BlueWin, Outcome::BlueWin) => true,
                    (Outcome::Draw, Outcome::Draw) => true,
                    _ => false,
                };
                if !(NUM_COLORS <= move_number && move_number <= MAX_MOVES_IN_GAME) || !same {
                    return Err(Invalid);
                }
            },
        }
        match stage {
            Stage::Setup => {
                let mut k: usize = 0;
                while k < NUM_COLORED_PIECES
                    invariant
                        k <= 10,
                        stage == Stage::Setup,
                        b == board@,
                        c == captured@,
                        to_move == spec_to_move(move_number as nat),
                        forall|t: int|
                            0 <= t < k ==> {
                                let cp = #[trigger] ColoredPiece::spec_from_index(t);
                                &&& spec_count_piece(b, cp) == if cp.spec_color().spec_index()
                                    < to_move.spec_index() {
                                    spec_initial_count(cp.spec_piece())
                                } else {
                                    0
                                }
                                &&& spec_piece_set(b, cp).subset_of(spec_initial_squares(cp.spec_color()))
                                &&& c[cp.spec_index() as int] == 0
                            },
                    decreases 10 - k,
                {
                    let cp = ColoredPiece::from_index(k);
                    let want = if cp.color().index() < to_move.index() {
                        cp.piece().initial_count()
                    } else {
                        0
                    };
                    let squares = board.piece_map(cp);
                    if squares.count() != want || !squares.is_subset_of(cp.color().initial_squares())
                        || captured.get(cp) != 0 {
                        proof {
                            assert(stage == Stage::Setup);
                            if spec_valid(Stage::Setup, move_number as nat, b, c) {
                                lemma_valid_setup_piece(move_number as nat, b, c, cp);
                            }
                        }
                        return Err(Invalid);
                    }
                    k += 1;
                }
                proof {
                    assert forall|cp: ColoredPiece| #[trigger] spec_count_piece(b, cp) == if cp.spec_color().spec_index()
                        < to_move.spec_index() {
                        spec_initial_count(cp.spec_piece())
                    } else {
                        0
                    } by {
                        assert(ColoredPiece::spec_from_index(cp.spec_index() as int) == cp);
                    }
                    assert forall|cp: ColoredPiece|
                        #[trigger] spec_piece_set(b, cp).subset_of(spec_initial_squares(cp.spec_color())) by {
                        assert(ColoredPiece::spec_from_index(cp.spec_index() as int) == cp);
                    }
                    assert forall|cp: ColoredPiece| #[trigger] c[cp.spec_index() as int] == 0 by {
                        assert(ColoredPiece::spec_from_index(cp.spec_index() as int) == cp);
                    }
                }
            },
            Stage::Regular | Stage::End(Outcome::Draw) => {
                let red = board.count_piece(Piece::Wazir.with_color(Color::Red));
                let blue = board.count_piece(Piece::Wazir.with_color(Color::Blue));
                if red != 1 || blue != 1 {
                    proof {
                        assert(spec_valid(stage, move_number as nat, b, c) ==> spec_count_piece(b, spec_wazir(Color::Red)) == 1);
                        assert(spec_valid(stage, move_number as nat, b, c) ==> spec_count_piece(b, spec_wazir(Color::Blue)) == 1);
                    }
                    return Err(Invalid);
                }
                proof {
                    assert forall|color: Color| #[trigger] spec_count_piece(b, spec_wazir(color)) == 1 by {
                        match color {
                            Color::Red => {},
                            Color::Blue => {},
                        }
                    }
                }
            },
            Stage::End(_) => {
                let wazir_opp = Piece::Wazir.with_color(to_move.opposite());
                let on_board = board.count_piece(wazir_opp);
                let held = captured.get(wazir_opp);
                if on_board != 1 || held != 1 {
                    proof {
                        assert(wazir_opp == spec_wazir(spec_to_move(move_number as nat).spec_opposite()));
                        assert(stage != Stage::End(Outcome::Draw));
                        assert(spec_valid(stage, move_number as nat, b, c) ==> spec_count_piece(b, wazir_opp) == 1);
                        assert(spec_valid(stage, move_number as nat, b, c) ==> c[wazir_opp.spec_index() as int] == 1);
                    }
                    return Err(Invalid);
                }
            },
        }
        Ok(Position { stage, move_number: move_number as u8, board, captured })
    }

    /// The position before the first setup move.
    pub fn initial() -> (r: Position)
        ensures
            r@ == (Stage::Setup, 0nat, spec_empty_board(), spec_no_captures()),
    {
        let board = Board::empty();
        let captured = Captured::new();
        proof {
            assert forall|cp: ColoredPiece| #[trigger] spec_count_piece(board@, cp) == 0 by {
                lemma_empty_count(cp, 64);
            }
            assert forall|cp: ColoredPiece|
                spec_piece_set(board@, cp).subset_of(spec_initial_squares(cp.spec_color())) by {
                assert(spec_piece_set(board@, cp) =~= Set::<Square>::empty());
            }
        }
        Position { stage: Stage::Setup, move_number: 0, board, captured }
    }

    pub fn stage(&self) -> (r: Stage)
        ensures
            r == self@.0,
    {
        self.stage
    }

    /// The board.
    pub(crate) fn board_ref(&self) -> (r: &Board)
        ensures
            r@ == self@.2,
    {
        &self.board
    }

    /// The captured pieces.
    pub(crate) fn captured_ref(&self) -> (r: &Captured)
        ensures
            r@ == self@.3,
    {
        &self.captured
    }

    /// The number of moves made so far, setup moves included.
    pub fn move_number(&self) -> (r: usize)
        ensures
            r == self@.1,
            r <= MAX_MOVES_IN_GAME,
    {
        proof {
            use_type_invariant(self);
        }
        self.move_number as usize
    }

    /// Moves made so far (the same as the move number).
    pub fn ply(&self) -> (r: u8)
        ensures
            r == self@.1,
            r <= MAX_MOVES_IN_GAME,
    {
        proof {
            use_type_invariant(self);
        }
        self.move_number
    }

    pub fn to_move(&self) -> (r: Color)
        ensures
            r == spec_to_move(self@.1),
    {
        Color::from_index(self.move_number() % NUM_COLORS)
    }

    pub fn square(&self, square: Square) -> (r: Option<ColoredPiece>)
        ensures
            r == self@.2[square.spec_index() as int],
    {
        self.board.square(square)
    }

    pub fn occupied_by(&self, color: Color) -> (r: Bitboard)
        ensures
            r@ == spec_color_set(self@.2, color),
    {
        self.board.occupied_by(color)
    }

    pub fn empty_squares(&self) -> (r: Bitboard)
        ensures
            r@ == spec_empty_set(self@.2),
    {
        self.board.empty_squares()
    }

    pub fn occupied_by_piece(&self, cpiece: ColoredPiece) -> (r: Bitboard)
        ensures
            r@ == spec_piece_set(self@.2, cpiece),
            r.spec_count() == spec_count_piece(self@.2, cpiece),
    {
        self.board.piece_map(cpiece)
    }

    /// The number of captured pieces of a colored kind held.
    pub fn num_captured(&self, cpiece: ColoredPiece) -> (r: usize)
        ensures
            r == self@.3[cpiece.spec_index() as int],
            r <= spec_total_count(cpiece.spec_piece()),
    {
        self.captured.get(cpiece)
    }

    /// The square of a color's wazir, if it is on the board.
    pub fn wazir_square(&self, color: Color) -> (r: Option<Square>)
        ensures
            r is None <==> !spec_has_wazir(self@, color),
            r matches Some(s) ==> s == spec_the_wazir(self@, color),
    {
        proof {
            use_type_invariant(self);
        }
        let r = self.board.piece_map(Piece::Wazir.with_color(color)).first();
        proof {
            match r {
                Some(w) => {
                    lemma_wazir_unique(self@, color, w);
                },
                None => {
                    if spec_has_wazir(self@, color) {
                        let w = choose|w: Square| self@.2[w.spec_index() as int] == Some(spec_wazir(color));
                        assert(spec_piece_set(self@.2, spec_wazir(color)).contains(w));
                    }
                },
            }
        }
        r
    }

    pub fn hash(&self) -> (r: u64)
        ensures
            r == spec_position_hash(self@),
    {
        to_move(self.to_move()) ^ self.board.hash() ^ self.captured.hash()
    }

    /// The hash without the captured pieces.
    pub fn hash_ignoring_captured(&self) -> (r: u64)
        ensures
            r == spec_to_move_key(spec_to_move(self@.1)) ^ spec_board_hash(self@.2),
    {
        to_move(self.to_move()) ^ self.board.hash()
    }

    pub fn make_move(&self, mov: Move) -> (r: Result<Position, InvalidMove>)
        ensures
            match mov {
                Move::Setup(m) => (r is Ok <==> spec_setup_legal(self@, m)) && (r matches Ok(p) ==> p@
                    == spec_setup_result(self@, m)),
                Move::Regular(m) => (r is Ok <==> spec_regular_step(self@, m) is Some) && (r matches Ok(
                    p,
                ) ==> p@ == spec_regular_step(self@, m)->0),
            },
    {
        match mov {
            Move::Setup(mov) => self.make_setup_move(mov),
            Move::Regular(mov) => self.make_regular_move(mov),
        }
    }

    pub fn make_setup_move(&self, mov: SetupMove) -> (r: Result<Position, InvalidMove>)
        ensures
            r is Ok <==> spec_setup_legal(self@, mov),
            r matches Ok(p) ==> p@ == spec_setup_result(self@, mov),
    {
        proof {
            use_type_invariant(self);
        }
        let me = self.to_move();
        if self.stage != Stage::Setup || mov.color != me {
            return Err(InvalidMove);
        }
        match mov.validate_pieces() {
            Ok(()) => {},
            Err(e) => {
                return Err(e);
            },
        }
        let ghost b = self.board@;
        let ghost c = self.captured@;
        let mut board = self.board;
        let symmetry = Symmetry::pov(me).inverse();
        let mut i: usize = 0;
        while i < 16
            invariant
                i <= 16,
                me == mov.color,
                me == spec_to_move(self@.1),
                symmetry == match me {
                    Color::Red => Symmetry::Identity,
                    Color::Blue => Symmetry::Rotate180,
                },
                spec_valid(Stage::Setup, self@.1, b, c),
                board@ == Seq::new(
                    64,
                    |k: int|
                        if spec_in_setup_range(me, k) && spec_setup_square(me, k) < i {
                            Some(ColoredPiece::spec_new(mov.pieces@[spec_setup_square(me, k)], me))
                        } else {
                            b[k]
                        },
                ),
                forall|cp: ColoredPiece|
                    #[trigger] spec_count_piece(board@, cp) == spec_count_piece(b, cp) + if cp.spec_color()
                        == me {
                        count_in(mov.pieces@, cp.spec_piece(), i as nat)
                    } else {
                        0
                    },
            decreases 16 - i,
        {
            let square = symmetry.apply(Square::from_index(i));
            let ghost k = square.spec_index() as int;
            let cp_i = mov.pieces[i].with_color(me);
            proof {
                assert(k == spec_setup_square(me, i as int));
                assert(spec_in_setup_range(me, k));
                assert(spec_setup_square(me, k) == i);
                lemma_setup_square_empty(self@.1, b, c, k);
            }
            let ghost before = board@;
            assert(forall|cp: ColoredPiece|
                #[trigger] spec_count_piece(before, cp) == spec_count_piece(b, cp) + if cp.spec_color()
                    == me {
                    count_in(mov.pieces@, cp.spec_piece(), i as nat)
                } else {
                    0
                });
            let res = board.place_piece(square, cp_i);
            proof {
                assert(board@ == before.update(k, Some(cp_i)));
                assert(board@ =~= Seq::new(
                    64,
                    |kk: int|
                        if spec_in_setup_range(me, kk) && spec_setup_square(me, kk) < i + 1 {
                            Some(ColoredPiece::spec_new(mov.pieces@[spec_setup_square(me, kk)], me))
                        } else {
                            b[kk]
                        },
                ));
                assert forall|cp: ColoredPiece|
                    #[trigger] spec_count_piece(board@, cp) == spec_count_piece(b, cp) + if cp.spec_color()
                        == me {
                        count_in(mov.pieces@, cp.spec_piece(), (i + 1) as nat)
                    } else {
                        0
                    } by {
                    lemma_count_piece_update(before, cp, k, Some(cp_i), 64);
                    assert(ColoredPiece::spec_new(cp.spec_piece(), cp.spec_color()) == cp);
                    assert(before[k] is None);
                    assert(cp_i == ColoredPiece::spec_new(mov.pieces@[i as int], me));
                    assert(spec_count_piece(board@, cp) + (if before[k] == Some(cp) { 1int } else { 0 }) == spec_count_piece(before, cp) + (if Some(cp_i) == Some(cp) { 1int } else { 0 }));
                    assert(spec_count_piece(before, cp) == spec_count_piece(b, cp) + if cp.spec_color()
                    == me {
                    count_in(mov.pieces@, cp.spec_piece(), i as nat)
                } else {
                    0
                });
                    assert((cp_i == cp) == (cp.spec_color() == me && mov.pieces@[i as int] == cp.spec_piece()));
                    assert(count_in(mov.pieces@, cp.spec_piece(), (i + 1) as nat) == count_in(
                        mov.pieces@,
                        cp.spec_piece(),
                        i as nat,
                    ) + if mov.pieces@[i as int] == cp.spec_piece() {
                        1nat
                    } else {
                        0nat
                    });
                }
            }
            i += 1;
        }
        let move_number = self.move_number + 1;
        let stage = if move_number as usize == NUM_COLORS {
            Stage::Regular
        } else {
            Stage::Setup
        };
        proof {
            assert(board@ =~= spec_setup_board(b, mov));
            lemma_setup_valid(self@, mov);
        }
        Ok(Position { stage, move_number, board, captured: self.captured })
    }

    pub fn make_regular_move(&self, mov: RegularMove) -> (r: Result<Position, InvalidMove>)
        ensures
            r is Ok <==> spec_regular_step(self@, mov) is Some,
            r matches Ok(p) ==> p@ == spec_regular_step(self@, mov)->0,
    {
        proof {
            use_type_invariant(self);
            self.board.lemma_len();
            self.captured.lemma_len();
        }
        let me = self.to_move();
        let opp = me.opposite();
        let cp = mov.colored_piece;
        if self.stage != Stage::Regular || cp.color() != me {
            return Err(InvalidMove);
        }
        let mut board = self.board;
        let mut captured = self.captured;
        match mov.from {
            None => {
                if mov.captured.is_some() {
                    return Err(InvalidMove);
                }
                match captured.remove(cp) {
                    Ok(()) => {},
                    Err(_) => {
                        return Err(InvalidMove);
                    },
                }
            },
            Some(from) => {
                match validate_from_to(cp.piece(), from, mov.to) {
                    Ok(()) => {},
                    Err(e) => {
                        return Err(e);
                    },
                }
                match board.remove_piece(from, cp) {
                    Ok(()) => {},
                    Err(_) => {
                        return Err(InvalidMove);
                    },
                }
            },
        }
        let mut stage = Stage::Regular;
        match mov.captured {
            None => {},
            Some(c) => {
                match board.remove_piece(mov.to, c.with_color(opp)) {
                    Ok(()) => {},
                    Err(_) => {
                        return Err(InvalidMove);
                    },
                }
                match captured.add(c.with_color(me)) {
                    Ok(()) => {},
                    Err(_) => {
                        return Err(InvalidMove);
                    },
                }
                if c == Piece::Wazir {
                    stage = Stage::End(Outcome::win(me));
                }
            },
        }
        match board.place_piece(mov.to, cp) {
            Ok(()) => {},
            Err(_) => {
                return Err(InvalidMove);
            },
        }
        let move_number = self.move_number + 1;
        if move_number as usize == MAX_MOVES_IN_GAME && stage == Stage::Regular {
            stage = Stage::End(Outcome::Draw);
        }
        proof {
            lemma_regular_step_valid(self@, mov);
            assert(spec_regular_legal(self@, mov));
            assert(board@ == step_b3(self@, mov));
            assert(captured@ == step_c2(self@, mov));
            assert(stage == step_stage(self@, mov));
        }
        Ok(Position { stage, move_number, board, captured })
    }
}

proof fn lemma_empty_count(cp: ColoredPiece, n: nat)
    requires
        n <= 64,
    ensures
        count_piece_below(spec_empty_board(), cp, n) == 0,
    decreases n,
{
    if n > 0 {
        lemma_empty_count(cp, (n - 1) as nat);
    }
}

/// What a valid setup position says of one colored piece.
pub proof fn lemma_valid_setup_piece(mn: nat, b: Seq<Option<ColoredPiece>>, c: Seq<nat>, cp: ColoredPiece)
    requires
        spec_valid(Stage::Setup, mn, b, c),
    ensures
        spec_count_piece(b, cp) == if cp.spec_color().spec_index() < spec_to_move(mn).spec_index() {
            spec_initial_count(cp.spec_piece())
        } else {
            0
        },
        spec_piece_set(b, cp).subset_of(spec_initial_squares(cp.spec_color())),
        c[cp.spec_index() as int] == 0,
{
    assert(spec_count_piece(b, cp) == spec_count_piece(b, cp));
    assert(spec_piece_set(b, cp) == spec_piece_set(b, cp));
    assert(c[cp.spec_index() as int] == c[cp.spec_index() as int]);
}

/// In a valid setup position, the squares where the mover sets up are empty.
pub proof fn lemma_setup_square_empty(mn: nat, b: Seq<Option<ColoredPiece>>, c: Seq<nat>, k: int)
    requires
        spec_valid(Stage::Setup, mn, b, c),
        spec_in_setup_range(spec_to_move(mn), k),
    ensures
        b[k] is None,
{
    let me = spec_to_move(mn);
    if b[k] is Some {
        let x = b[k]->0;
        let s = Square::spec_from_index(k);
        assert(s.spec_index() == k);
        assert(spec_piece_set(b, x).contains(s));
        lemma_valid_setup_piece(mn, b, c, x);
        if x.spec_color().spec_index() < me.spec_index() {
            assert(spec_piece_set(b, x).subset_of(spec_initial_squares(x.spec_color())));
            assert(spec_initial_squares(x.spec_color()).contains(s));
        } else {
            assert(spec_count_piece(b, x) == 0);
            lemma_count_zero(b, x, 64, k);
        }
    }
}

/// A legal setup move from a valid position gives a valid position.
pub proof fn lemma_setup_valid(s: PositionView, m: SetupMove)
    requires
        spec_valid(s.0, s.1, s.2, s.3),
        spec_setup_legal(s, m),
        forall|cp: ColoredPiece|
            #[trigger] spec_count_piece(spec_setup_board(s.2, m), cp) == spec_count_piece(s.2, cp)
                + if cp.spec_color() == m.color {
                count_in(m.pieces@, cp.spec_piece(), 16)
            } else {
                0
            },
    ensures
        ({
            let t = spec_setup_result(s, m);
            spec_valid(t.0, t.1, t.2, t.3)
        }),
{
    let (stage, mn, b, c) = s;
    let t = spec_setup_result(s, m);
    let b2 = t.2;
    let me = m.color;
    lemma_to_move_next(mn);
    assert forall|cp: ColoredPiece| #[trigger] spec_count_piece(b2, cp) == spec_count_piece(b, cp) + if cp.spec_color()
        == me {
        spec_initial_count(cp.spec_piece())
    } else {
        0
    } by {
        assert(spec_count_piece(b2, cp) == spec_count_piece(b, cp) + if cp.spec_color() == me {
            count_in(m.pieces@, cp.spec_piece(), 16)
        } else {
            0
        });
    }
    assert forall|cp: ColoredPiece| #[trigger] spec_count_piece(b, cp) == if cp.spec_color().spec_index()
        < me.spec_index() {
        spec_initial_count(cp.spec_piece())
    } else {
        0
    } by {
        lemma_valid_setup_piece(mn, b, c, cp);
    }
    assert forall|cp: ColoredPiece|
        spec_piece_set(b2, cp).subset_of(spec_initial_squares(cp.spec_color())) && c[cp.spec_index() as int] == 0 by {
        lemma_valid_setup_piece(mn, b, c, cp);
        assert forall|sq: Square| spec_piece_set(b2, cp).contains(sq) implies spec_initial_squares(
            cp.spec_color(),
        ).contains(sq) by {
            let k = sq.spec_index() as int;
            if !spec_in_setup_range(me, k) {
                assert(spec_piece_set(b, cp).contains(sq));
            }
        }
    }
    if mn + 1 == 2 {
        assert forall|p: Piece| #[trigger] spec_total_in_game(b2, c, p) == 2 * spec_initial_count(p) by {
            let xr = ColoredPiece::spec_new(p, Color::Red);
            let xb = ColoredPiece::spec_new(p, Color::Blue);
            assert(spec_count_piece(b2, xr) == spec_initial_count(p));
            assert(spec_count_piece(b2, xb) == spec_initial_count(p));
            assert(c[xr.spec_index() as int] == 0);
            assert(c[xb.spec_index() as int] == 0);
        }
        assert forall|color: Color| #[trigger] spec_count_piece(b2, spec_wazir(color)) == 1 by {
            assert(spec_count_piece(b2, spec_wazir(color)) == spec_initial_count(Piece::Wazir));
        }
    }
}

} // verus!
