use crate::color::Color;
use crate::parser::{byte, ParseError, ParseResult, ParseSuccess, Parser, ParserExt};
use crate::piece::{
    group_piece, spec_initial_count, spec_piece_from_letter, spec_piece_letter, ColoredPiece,
    ColoredPieceParser, Piece, NUM_PIECES,
};
use crate::square::{
    group_square, spec_is_square_name, spec_square_ascii, spec_square_named, sq_x, sq_y, Square,
};
use crate::text::is_ascii_bytes;
use vstd::prelude::*;
use vstd::string::StringSliceAdditionalSpecFns;

verus! {

broadcast use {group_square, group_piece};

/// A move that breaks the rules.
#[derive(Debug, Clone, Copy, PartialEq, Eq, Structural)]
pub struct InvalidMove;

/// Number of pieces placed by a setup move.
pub const SETUP_MOVE_SIZE: usize = 16;

/// A setup move: the pieces in order of placement, from square 0 (red) or square 63 (blue).
#[derive(Debug, Clone, Copy, PartialEq, Eq, Hash)]
pub struct SetupMove {
    pub color: Color,
    pub pieces: [Piece; 16],
}

/// Number of entries of `pieces` below `n` equal to `p`.
pub open spec fn count_in(pieces: Seq<Piece>, p: Piece, n: nat) -> nat
    decreases n,
{
    if n == 0 {
        0
    } else {
        count_in(pieces, p, (n - 1) as nat) + if pieces[n - 1] == p {
            1nat
        } else {
            0nat
        }
    }
}

/// The pieces of a setup move are exactly the starting set: each kind as many times as a
/// player starts with.
pub open spec fn spec_valid_pieces(pieces: Seq<Piece>) -> bool {
    forall|p: Piece| #[trigger] count_in(pieces, p, 16) == spec_initial_count(p)
}

/// The input begins with 16 piece letters of one color.
pub open spec fn spec_is_setup_text(input: Seq<u8>) -> bool {
    &&& input.len() >= 16
    &&& forall|i: int|
        0 <= i < 16 ==> (#[trigger] spec_piece_from_letter(input[i])) is Some
            && spec_piece_from_letter(input[i])->0.spec_color() == spec_piece_from_letter(
            input[0],
        )->0.spec_color()
}

/// The color of the setup move written at the start of the input.
pub open spec fn spec_setup_text_color(input: Seq<u8>) -> Color {
    spec_piece_from_letter(input[0])->0.spec_color()
}

/// The `i`-th piece of the setup move written at the start of the input: text order for
/// red, reversed for blue.
pub open spec fn spec_setup_text_piece(input: Seq<u8>, i: int) -> Piece {
    let j = match spec_setup_text_color(input) {
        Color::Red => i,
        Color::Blue => 15 - i,
    };
    spec_piece_from_letter(input[j])->0.spec_piece()
}

/// `m` is the setup move written at the start of the input.
pub open spec fn spec_setup_parsed(input: Seq<u8>, m: SetupMove) -> bool {
    &&& m.color == spec_setup_text_color(input)
    &&& forall|i: int| 0 <= i < 16 ==> m.pieces@[i] == spec_setup_text_piece(input, i)
}

/// The text of a setup move.
pub open spec fn spec_setup_text(m: SetupMove) -> Seq<u8> {
    Seq::new(
        16,
        |i: int|
            {
                let j = match m.color {
                    Color::Red => i,
                    Color::Blue => 15 - i,
                };
                spec_piece_letter(ColoredPiece::spec_new(m.pieces@[j], m.color))
            },
    )
}

impl SetupMove {
    pub fn parser() -> SetupMoveParser {
        SetupMoveParser
    }

    /// Checks that the move places exactly the starting set of pieces.
    pub fn validate_pieces(&self) -> (r: Result<(), InvalidMove>)
        ensures
            r is Ok <==> spec_valid_pieces(self.pieces@),
    {
        let mut counts: [usize; 5] = [0, 0, 0, 0, 0];
        let mut i: usize = 0;
        while i < SETUP_MOVE_SIZE
            invariant
                i <= 16,
                forall|p: Piece| #[trigger] counts@[p.spec_index() as int] == count_in(self.pieces@, p, i as nat),
                forall|k: int| 0 <= k < 5 ==> counts@[k] <= i,
            decreases 16 - i,
        {
            let k = self.pieces[i].index();
            proof {
                assert(counts@[k as int] <= i);
            }
            counts[k] = counts[k] + 1;
            proof {
                assert forall|p: Piece| #[trigger] counts@[p.spec_index() as int] == count_in(
                    self.pieces@,
                    p,
                    (i + 1) as nat,
                ) by {
                    if p == self.pieces@[i as int] {
                    } else {
                        assert(p.spec_index() != k);
                    }
                }
            }
            i += 1;
        }
        let mut j: usize = 0;
        while j < NUM_PIECES
            invariant
                j <= 5,
                forall|p: Piece| #[trigger] counts@[p.spec_index() as int] == count_in(self.pieces@, p, 16),
                forall|k: int|
                    0 <= k < j ==> count_in(self.pieces@, Piece::spec_from_index(k), 16)
                        == spec_initial_count(Piece::spec_from_index(k)),
            decreases 5 - j,
        {
            let p = Piece::from_index(j);
            if counts[j] != p.initial_count() {
                return Err(InvalidMove);
            }
            j += 1;
        }
        proof {
            assert forall|p: Piece| #[trigger] count_in(self.pieces@, p, 16) == spec_initial_count(p) by {
                assert(Piece::spec_from_index(p.spec_index() as int) == p);
            }
        }
        Ok(())
    }

    /// Appends the move text.
    pub fn write_ascii(&self, out: &mut Vec<u8>)
        ensures
            final(out)@ == old(out)@ + spec_setup_text(*self),
    {
        let mut i: usize = 0;
        while i < SETUP_MOVE_SIZE
            invariant
                i <= 16,
                out@ == old(out)@ + spec_setup_text(*self).subrange(0, i as int),
            decreases 16 - i,
        {
            let j = match self.color {
                Color::Red => i,
                Color::Blue => 15 - i,
            };
            let cp = self.pieces[j].with_color(self.color);
            out.push(cp.letter());
            proof {
                assert(out@ =~= old(out)@ + spec_setup_text(*self).subrange(0, i + 1));
            }
            i += 1;
        }
        proof {
            assert(spec_setup_text(*self).subrange(0, 16) =~= spec_setup_text(*self));
        }
    }
}

/// Parses a setup move: 16 piece letters of one color.
#[derive(Debug, Clone, Copy)]
pub struct SetupMoveParser;

impl Parser for SetupMoveParser {
    type Output = SetupMove;

    open spec fn spec_parse_len(&self, input: Seq<u8>) -> Option<nat> {
        if spec_is_setup_text(input) {
            Some(16nat)
        } else {
            None
        }
    }

    open spec fn spec_parse_value(&self, input: Seq<u8>, value: SetupMove) -> bool {
        spec_setup_parsed(input, value)
    }

    fn parse<'a>(&self, input: &'a [u8]) -> (r: ParseResult<'a, SetupMove>) {
        if input.len() < 16 {
            return Err(ParseError);
        }
        let first = match ColoredPiece::from_letter(input[0]) {
            Some(cp) => cp,
            None => {
                return Err(ParseError);
            },
        };
        let color = first.color();
        let mut pieces: [Piece; 16] = [Piece::Alfil;16];
        let mut i: usize = 0;
        while i < SETUP_MOVE_SIZE
            invariant
                i <= 16,
                input@.len() >= 16,
                spec_piece_from_letter(input@[0]) == Some(first),
                color == first.spec_color(),
                forall|k: int|
                    0 <= k < i ==> (#[trigger] spec_piece_from_letter(input@[k])) is Some
                        && spec_piece_from_letter(input@[k])->0.spec_color() == color,
                forall|k: int|
                    0 <= k < i ==> pieces@[k] == spec_piece_from_letter(input@[k])->0.spec_piece(),
            decreases 16 - i,
        {
            let cp = match ColoredPiece::from_letter(input[i]) {
                Some(cp) => cp,
                None => {
                    return Err(ParseError);
                },
            };
            if cp.color() != color {
                return Err(ParseError);
            }
            pieces[i] = cp.piece();
            proof {
                assert(spec_piece_from_letter(input@[i as int]) == Some(cp));
            }
            i += 1;
        }
        let ghost text_pieces = pieces@;
        let mut result: [Piece; 16] = pieces;
        match color {
            Color::Red => {},
            Color::Blue => {
                let mut k: usize = 0;
                while k < SETUP_MOVE_SIZE
                    invariant
                        k <= 16,
                        pieces@ == text_pieces,
                        forall|t: int| 0 <= t < k ==> result@[t] == text_pieces[15 - t],
                    decreases 16 - k,
                {
                    result[k] = pieces[15 - k];
                    k += 1;
                }
            },
        }
        let rest = vstd::slice::slice_subrange(input, 16, input.len());
        proof {
            assert(rest@ =~= input@.skip(16));
        }
        Ok(ParseSuccess { value: SetupMove { color, pieces: result }, remaining: rest })
    }
}

/// A regular move: a jump, a capture or a drop.
#[derive(Debug, Clone, Copy, PartialEq, Eq, Hash, Structural)]
pub struct RegularMove {
    pub colored_piece: ColoredPiece,
    /// `None` for a drop.
    pub from: Option<Square>,
    /// The piece taken, if any.
    pub captured: Option<Piece>,
    pub to: Square,
}

/// The text of a regular move: piece letter, then `@` for a drop, or the origin square and
/// `-` or `x` with the captured piece's letter, then the target square.
pub open spec fn spec_regular_text(m: RegularMove) -> Seq<u8> {
    let middle = match (m.from, m.captured) {
        (None, _) => seq![64u8],
        (Some(from), None) => spec_square_ascii(from) + seq![45u8],
        (Some(from), Some(c)) => spec_square_ascii(from) + seq![
            120u8,
            spec_piece_letter(ColoredPiece::spec_new(c, m.colored_piece.spec_color().spec_opposite())),
        ],
    };
    seq![spec_piece_letter(m.colored_piece)] + middle + spec_square_ascii(m.to)
}

/// The text of a regular move is ASCII.
pub proof fn lemma_regular_text_ascii(m: RegularMove)
    ensures
        is_ascii_bytes(spec_regular_text(m)),
{
    let t = spec_regular_text(m);
    assert forall|i: int| 0 <= i < t.len() implies #[trigger] t[i] < 128 by {
        assert(m.to.spec_index() < 64);
        match m.from {
            Some(f) => {
                assert(f.spec_index() < 64);
            },
            None => {},
        }
    }
}

/// Length of the regular move text at the start of the input, if there is one.
pub open spec fn spec_regular_len(input: Seq<u8>) -> Option<nat> {
    if input.len() < 1 || spec_piece_from_letter(input[0]) is None {
        None
    } else {
        let cp = spec_piece_from_letter(input[0])->0;
        if input.len() >= 2 && input[1] == 64u8 {
            if spec_is_square_name(input.skip(2)) {
                Some(4nat)
            } else {
                None
            }
        } else if spec_is_square_name(input.skip(1)) {
            if input.len() >= 4 && input[3] == 45u8 {
                if spec_is_square_name(input.skip(4)) {
                    Some(6nat)
                } else {
                    None
                }
            } else if input.len() >= 5 && input[3] == 120u8 && spec_piece_from_letter(input[4]) is Some
                && spec_piece_from_letter(input[4])->0.spec_color() == cp.spec_color().spec_opposite() {
                if spec_is_square_name(input.skip(5)) {
                    Some(7nat)
                } else {
                    None
                }
            } else {
                None
            }
        } else {
            None
        }
    }
}

/// The regular move written at the start of the input.
pub open spec fn spec_regular_value(input: Seq<u8>) -> RegularMove {
    let cp = spec_piece_from_letter(input[0])->0;
    if input[1] == 64u8 {
        RegularMove { colored_piece: cp, from: None, captured: None, to: spec_square_named(input.skip(2)) }
    } else if input[3] == 45u8 {
        RegularMove {
            colored_piece: cp,
            from: Some(spec_square_named(input.skip(1))),
            captured: None,
            to: spec_square_named(input.skip(4)),
        }
    } else {
        RegularMove {
            colored_piece: cp,
            from: Some(spec_square_named(input.skip(1))),
            captured: Some(spec_piece_from_letter(input[4])->0.spec_piece()),
            to: spec_square_named(input.skip(5)),
        }
    }
}

impl RegularMove {
    pub fn parser() -> RegularMoveParser {
        RegularMoveParser
    }

    /// Appends the move text. A drop that captures has no text.
    pub fn write_ascii(&self, out: &mut Vec<u8>)
        requires
            !(self.from is None && self.captured is Some),
        ensures
            final(out)@ == old(out)@ + spec_regular_text(*self),
    {
        out.push(self.colored_piece.letter());
        match self.from {
            None => {
                out.push(64u8);
            },
            Some(from) => {
                from.write_ascii(out);
                match self.captured {
                    None => {
                        out.push(45u8);
                    },
                    Some(c) => {
                        out.push(120u8);
                        out.push(c.with_color(self.colored_piece.color().opposite()).letter());
                    },
                }
            },
        }
        self.to.write_ascii(out);
        proof {
            assert(final(out)@ =~= old(out)@ + spec_regular_text(*self));
        }
    }

    /// Parses the whole string as a regular move.
    pub fn parse_str(s: &str) -> (r: Result<RegularMove, ParseError>)
        ensures
            r is Ok <==> spec_regular_len(s.spec_bytes()) == Some(s.spec_bytes().len()),
            r matches Ok(m) ==> m == spec_regular_value(s.spec_bytes()),
    {
        RegularMoveParser.parse_all(s.as_bytes())
    }
}

impl std::str::FromStr for RegularMove {
    type Err = ParseError;

    fn from_str(s: &str) -> (r: Result<RegularMove, ParseError>)
        ensures
            r is Ok <==> spec_regular_len(s.spec_bytes()) == Some(s.spec_bytes().len()),
            r matches Ok(m) ==> m == spec_regular_value(s.spec_bytes()),
    {
        RegularMove::parse_str(s)
    }
}

fn parse_square_at<'a>(input: &'a [u8]) -> (r: ParseResult<'a, Square>)
    ensures
        spec_is_square_name(input@) ==> r is Ok && r->Ok_0.value == spec_square_named(input@)
            && r->Ok_0.remaining@ == input@.skip(2),
        !spec_is_square_name(input@) ==> r is Err,
{
    Square::parser().parse(input)
}

/// Parses a regular move.
#[derive(Debug, Clone, Copy)]
pub struct RegularMoveParser;

impl Parser for RegularMoveParser {
    type Output = RegularMove;

    open spec fn spec_parse_len(&self, input: Seq<u8>) -> Option<nat> {
        spec_regular_len(input)
    }

    open spec fn spec_parse_value(&self, input: Seq<u8>, value: RegularMove) -> bool {
        value == spec_regular_value(input)
    }

    fn parse<'a>(&self, input: &'a [u8]) -> (r: ParseResult<'a, RegularMove>) {
        let s0 = match ColoredPiece::parser().parse(input) {
            Ok(s) => s,
            Err(e) => return Err(e),
        };
        let cp = s0.value;
        let rest1 = s0.remaining;
        proof {
            assert(rest1@ =~= input@.skip(1));
        }
        if rest1.len() >= 1 && rest1[0] == 64u8 {
            let rest2 = vstd::slice::slice_subrange(rest1, 1, rest1.len());
            proof {
                assert(rest2@ =~= input@.skip(2));
            }
            let st = match parse_square_at(rest2) {
                Ok(s) => s,
                Err(e) => return Err(e),
            };
            proof {
                assert(st.remaining@ =~= input@.skip(4));
            }
            return Ok(
                ParseSuccess {
                    value: RegularMove { colored_piece: cp, from: None, captured: None, to: st.value },
                    remaining: st.remaining,
                },
            );
        }
        let sf = match parse_square_at(rest1) {
            Ok(s) => s,
            Err(e) => return Err(e),
        };
        let from = sf.value;
        let rest3 = sf.remaining;
        proof {
            assert(rest3@ =~= input@.skip(3));
        }
        if rest3.len() >= 1 && rest3[0] == 45u8 {
            let rest4 = vstd::slice::slice_subrange(rest3, 1, rest3.len());
            proof {
                assert(rest4@ =~= input@.skip(4));
            }
            let st = match parse_square_at(rest4) {
                Ok(s) => s,
                Err(e) => return Err(e),
            };
            proof {
                assert(st.remaining@ =~= input@.skip(6));
            }
            return Ok(
                ParseSuccess {
                    value: RegularMove { colored_piece: cp, from: Some(from), captured: None, to: st.value },
                    remaining: st.remaining,
                },
            );
        }
        if rest3.len() >= 2 && rest3[0] == 120u8 {
            match ColoredPiece::from_letter(rest3[1]) {
                Some(cp2) => {
                    if cp2.color() != cp.color().opposite() {
                        return Err(ParseError);
                    }
                    let rest5 = vstd::slice::slice_subrange(rest3, 2, rest3.len());
                    proof {
                        assert(rest5@ =~= input@.skip(5));
                    }
                    let st = match parse_square_at(rest5) {
                        Ok(s) => s,
                        Err(e) => return Err(e),
                    };
                    proof {
                        assert(st.remaining@ =~= input@.skip(7));
                    }
                    return Ok(
                        ParseSuccess {
                            value: RegularMove {
                                colored_piece: cp,
                                from: Some(from),
                                captured: Some(cp2.piece()),
                                to: st.value,
                            },
                            remaining: st.remaining,
                        },
                    );
                },
                None => {
                    return Err(ParseError);
                },
            }
        }
        Err(ParseError)
    }
}

/// A move of any kind.
#[derive(Debug, Clone, Copy, PartialEq, Eq, Hash)]
pub enum Move {
    Setup(SetupMove),
    Regular(RegularMove),
}

impl Move {
    pub fn parser() -> MoveParser {
        MoveParser
    }

    /// Parses the whole string as a move.
    pub fn parse_str(s: &str) -> (r: Result<Move, ParseError>)
        ensures
            r is Ok <==> spec_move_len(s.spec_bytes()) == Some(s.spec_bytes().len()),
            r matches Ok(m) ==> spec_move_parsed(s.spec_bytes(), m),
    {
        MoveParser.parse_all(s.as_bytes())
    }

    /// Appends the move text.
    pub fn write_ascii(&self, out: &mut Vec<u8>)
        requires
            self matches Move::Regular(m) ==> !(m.from is None && m.captured is Some),
        ensures
            final(out)@ == old(out)@ + spec_move_text(*self),
    {
        match self {
            Move::Setup(m) => m.write_ascii(out),
            Move::Regular(m) => m.write_ascii(out),
        }
    }
}

/// The text of a move.
pub open spec fn spec_move_text(m: Move) -> Seq<u8> {
    match m {
        Move::Setup(s) => spec_setup_text(s),
        Move::Regular(r) => spec_regular_text(r),
    }
}

impl std::str::FromStr for Move {
    type Err = ParseError;

    fn from_str(s: &str) -> (r: Result<Move, ParseError>)
        ensures
            r is Ok <==> spec_move_len(s.spec_bytes()) == Some(s.spec_bytes().len()),
            r matches Ok(m) ==> spec_move_parsed(s.spec_bytes(), m),
    {
        Move::parse_str(s)
    }
}

/// Length of the move text at the start of the input: a setup move or, failing that, a
/// regular move.
pub open spec fn spec_move_len(input: Seq<u8>) -> Option<nat> {
    if spec_is_setup_text(input) {
        Some(16nat)
    } else {
        spec_regular_len(input)
    }
}

/// `value` is the move written at the start of the input.
pub open spec fn spec_move_parsed(input: Seq<u8>, value: Move) -> bool {
    if spec_is_setup_text(input) {
        value matches Move::Setup(m) && spec_setup_parsed(input, m)
    } else {
        value == Move::Regular(spec_regular_value(input))
    }
}

/// Parses a setup move or, failing that, a regular move.
#[derive(Debug, Clone, Copy)]
pub struct MoveParser;

impl Parser for MoveParser {
    type Output = Move;

    open spec fn spec_parse_len(&self, input: Seq<u8>) -> Option<nat> {
        spec_move_len(input)
    }

    open spec fn spec_parse_value(&self, input: Seq<u8>, value: Move) -> bool {
        spec_move_parsed(input, value)
    }

    fn parse<'a>(&self, input: &'a [u8]) -> (r: ParseResult<'a, Move>) {
        match SetupMoveParser.parse(input) {
            Ok(s) => {
                return Ok(ParseSuccess { value: Move::Setup(s.value), remaining: s.remaining });
            },
            Err(_) => {},
        }
        match RegularMoveParser.parse(input) {
            Ok(s) => Ok(ParseSuccess { value: Move::Regular(s.value), remaining: s.remaining }),
            Err(e) => Err(e),
        }
    }
}

/// Where a move in short notation comes from: a piece in hand (a drop) or a square.
#[derive(Debug, Clone, Copy, PartialEq, Eq, Hash, Structural)]
pub enum ShortMoveFrom {
    Piece(ColoredPiece),
    Square(Square),
}

impl ShortMoveFrom {
    pub fn parser() -> ShortMoveFromParser {
        ShortMoveFromParser
    }
}

/// Length of the origin of a short move at the start of the input: a square name or,
/// failing that, a piece letter.
pub open spec fn spec_short_from_len(input: Seq<u8>) -> Option<nat> {
    if spec_is_square_name(input) {
        Some(2nat)
    } else if input.len() >= 1 && spec_piece_from_letter(input[0]) is Some {
        Some(1nat)
    } else {
        None
    }
}

/// The origin of a short move written at the start of the input.
pub open spec fn spec_short_from_value(input: Seq<u8>) -> ShortMoveFrom {
    if spec_is_square_name(input) {
        ShortMoveFrom::Square(spec_square_named(input))
    } else {
        ShortMoveFrom::Piece(spec_piece_from_letter(input[0])->0)
    }
}

/// Parses a square or, failing that, a piece letter.
#[derive(Debug, Clone, Copy)]
pub struct ShortMoveFromParser;

impl Parser for ShortMoveFromParser {
    type Output = ShortMoveFrom;

    open spec fn spec_parse_len(&self, input: Seq<u8>) -> Option<nat> {
        spec_short_from_len(input)
    }

    open spec fn spec_parse_value(&self, input: Seq<u8>, value: ShortMoveFrom) -> bool {
        value == spec_short_from_value(input)
    }

    fn parse<'a>(&self, input: &'a [u8]) -> (r: ParseResult<'a, ShortMoveFrom>) {
        match parse_square_at(input) {
            Ok(s) => {
                return Ok(ParseSuccess { value: ShortMoveFrom::Square(s.value), remaining: s.remaining });
            },
            Err(_) => {},
        }
        match ColoredPiece::parser().parse(input) {
            Ok(s) => Ok(ParseSuccess { value: ShortMoveFrom::Piece(s.value), remaining: s.remaining }),
            Err(e) => Err(e),
        }
    }
}

/// A move in the short notation used to talk to the referee.
#[derive(Debug, Clone, Copy, PartialEq, Eq, Hash)]
pub enum ShortMove {
    Setup(SetupMove),
    Regular { from: ShortMoveFrom, to: Square },
}

/// The text of a short move.
pub open spec fn spec_short_text(m: ShortMove) -> Seq<u8> {
    match m {
        ShortMove::Setup(s) => spec_setup_text(s),
        ShortMove::Regular { from, to } => spec_short_from_text(from) + spec_square_ascii(to),
    }
}

/// The text of the origin of a short move.
pub open spec fn spec_short_from_text(from: ShortMoveFrom) -> Seq<u8> {
    match from {
        ShortMoveFrom::Piece(cp) => seq![spec_piece_letter(cp)],
        ShortMoveFrom::Square(s) => spec_square_ascii(s),
    }
}

/// The short notation of a move.
pub open spec fn spec_short_of_move(m: Move) -> ShortMove {
    match m {
        Move::Setup(s) => ShortMove::Setup(s),
        Move::Regular(r) => ShortMove::Regular {
            from: match r.from {
                None => ShortMoveFrom::Piece(r.colored_piece),
                Some(f) => ShortMoveFrom::Square(f),
            },
            to: r.to,
        },
    }
}

impl ShortMove {
    pub fn parser() -> ShortMoveParser {
        ShortMoveParser
    }

    /// The short notation of a move: drops keep the piece, other moves the origin square.
    pub fn from_move(mov: Move) -> (r: ShortMove)
        ensures
            r == spec_short_of_move(mov),
    {
        match mov {
            Move::Setup(m) => ShortMove::Setup(m),
            Move::Regular(m) => ShortMove::Regular {
                from: match m.from {
                    None => ShortMoveFrom::Piece(m.colored_piece),
                    Some(from) => ShortMoveFrom::Square(from),
                },
                to: m.to,
            },
        }
    }

    /// Appends the move text.
    pub fn write_ascii(&self, out: &mut Vec<u8>)
        ensures
            final(out)@ == old(out)@ + spec_short_text(*self),
    {
        match self {
            ShortMove::Setup(m) => m.write_ascii(out),
            ShortMove::Regular { from, to } => {
                match from {
                    ShortMoveFrom::Piece(cp) => out.push(cp.letter()),
                    ShortMoveFrom::Square(s) => s.write_ascii(out),
                }
                to.write_ascii(out);
                proof {
                    assert(final(out)@ =~= old(out)@ + spec_short_text(*self));
                }
            },
        }
    }

    /// Parses the whole string as a short move.
    pub fn parse_str(s: &str) -> (r: Result<ShortMove, ParseError>)
        ensures
            r is Ok <==> spec_short_len(s.spec_bytes()) == Some(s.spec_bytes().len()),
            r matches Ok(m) ==> spec_short_parsed(s.spec_bytes(), m),
    {
        ShortMoveParser.parse_all(s.as_bytes())
    }
}

impl std::str::FromStr for ShortMove {
    type Err = ParseError;

    fn from_str(s: &str) -> (r: Result<ShortMove, ParseError>)
        ensures
            r is Ok <==> spec_short_len(s.spec_bytes()) == Some(s.spec_bytes().len()),
            r matches Ok(m) ==> spec_short_parsed(s.spec_bytes(), m),
    {
        ShortMove::parse_str(s)
    }
}

/// Parses a setup move or, failing that, an origin and a target square.
#[derive(Debug, Clone, Copy)]
pub struct ShortMoveParser;

/// Length of the short move text at the start of the input.
pub open spec fn spec_short_len(input: Seq<u8>) -> Option<nat> {
        if spec_is_setup_text(input) {
            Some(16nat)
        } else {
            match spec_short_from_len(input) {
                Some(n) => if spec_is_square_name(input.skip(n as int)) {
                    Some(n + 2)
                } else {
                    None
                },
                None => None,
            }
        }
}

/// `value` is the short move written at the start of the input.
pub open spec fn spec_short_parsed(input: Seq<u8>, value: ShortMove) -> bool {
        if spec_is_setup_text(input) {
            value matches ShortMove::Setup(m) && spec_setup_parsed(input, m)
        } else {
            value matches ShortMove::Regular { from, to } && from == spec_short_from_value(input)
                && to == spec_square_named(input.skip(spec_short_from_len(input)->0 as int))
        }
}

impl Parser for ShortMoveParser {
    type Output = ShortMove;

    open spec fn spec_parse_len(&self, input: Seq<u8>) -> Option<nat> {
        spec_short_len(input)
    }

    open spec fn spec_parse_value(&self, input: Seq<u8>, value: ShortMove) -> bool {
        spec_short_parsed(input, value)
    }

    fn parse<'a>(&self, input: &'a [u8]) -> (r: ParseResult<'a, ShortMove>) {
        match SetupMoveParser.parse(input) {
            Ok(s) => {
                return Ok(ParseSuccess { value: ShortMove::Setup(s.value), remaining: s.remaining });
            },
            Err(_) => {},
        }
        let sf = match ShortMoveFromParser.parse(input) {
            Ok(s) => s,
            Err(e) => return Err(e),
        };
        let st = match parse_square_at(sf.remaining) {
            Ok(s) => s,
            Err(e) => return Err(e),
        };
        proof {
            let n = spec_short_from_len(input@)->0;
            assert(st.remaining@ =~= input@.skip((n + 2) as int));
        }
        Ok(ParseSuccess { value: ShortMove::Regular { from: sf.value, to: st.value }, remaining: st.remaining })
    }
}

/// A square's name, whatever follows it, reads back as the square.
proof fn lemma_square_text(sq: Square, rest: Seq<u8>)
    ensures
        spec_is_square_name(spec_square_ascii(sq) + rest),
        spec_square_named(spec_square_ascii(sq) + rest) == sq,
{
    let t = spec_square_ascii(sq) + rest;
    let i = sq.spec_index() as int;
    assert(i < 64);
    assert(t[0] == 97 + sq_y(i) && t[1] == 49 + sq_x(i));
    assert((t[0] - 97) * 8 + (t[1] - 49) == i);
}

/// The text of a setup move, whatever follows it, reads back as the move.
proof fn lemma_setup_text(m: SetupMove, rest: Seq<u8>)
    ensures
        spec_is_setup_text(spec_setup_text(m) + rest),
        spec_setup_parsed(spec_setup_text(m) + rest, m),
{
    let t = spec_setup_text(m) + rest;
    assert forall|i: int| 0 <= i < 16 implies (#[trigger] spec_piece_from_letter(t[i])) is Some
        && spec_piece_from_letter(t[i])->0.spec_color() == spec_piece_from_letter(t[0])->0.spec_color() by {
        assert(t[i] == spec_setup_text(m)[i]);
        assert(t[0] == spec_setup_text(m)[0]);
    }
    assert(spec_setup_text_color(t) == m.color) by {
        assert(t[0] == spec_setup_text(m)[0]);
    }
    assert forall|i: int| 0 <= i < 16 implies m.pieces@[i] == spec_setup_text_piece(t, i) by {
        let j = match m.color {
            Color::Red => i,
            Color::Blue => 15 - i,
        };
        assert(t[j] == spec_setup_text(m)[j]);
    }
}

/// The text of a regular move (a drop that captures has none), whatever follows it,
/// reads back as the move and is not the text of a setup.
proof fn lemma_regular_text(m: RegularMove, rest: Seq<u8>)
    requires
        !(m.from is None && m.captured is Some),
    ensures
        !spec_is_setup_text(spec_regular_text(m) + rest),
        spec_regular_len(spec_regular_text(m) + rest) == Some(spec_regular_text(m).len()),
        spec_regular_value(spec_regular_text(m) + rest) == m,
{
    let t = spec_regular_text(m) + rest;
    let to_text = spec_square_ascii(m.to);
    match m.from {
        None => {
            assert(t.skip(2) =~= to_text + rest);
            lemma_square_text(m.to, rest);
            assert(spec_piece_from_letter(t[1]) is None);
        },
        Some(f) => {
            lemma_square_text(f, t.skip(3));
            assert(t.skip(1) =~= spec_square_ascii(f) + t.skip(3));
            assert(spec_piece_from_letter(t[2]) is None);
            match m.captured {
                None => {
                    assert(t.skip(4) =~= to_text + rest);
                    lemma_square_text(m.to, rest);
                },
                Some(c) => {
                    assert(t.skip(5) =~= to_text + rest);
                    lemma_square_text(m.to, rest);
                },
            }
        },
    }
}

/// A move's text, whatever follows it, reads back as the move (a drop that captures has
/// no text).
pub proof fn lemma_move_text_roundtrip(m: Move, rest: Seq<u8>)
    requires
        m matches Move::Regular(r) ==> !(r.from is None && r.captured is Some),
    ensures
        spec_move_len(spec_move_text(m) + rest) == Some(spec_move_text(m).len()),
        spec_move_parsed(spec_move_text(m) + rest, m),
{
    match m {
        Move::Setup(s) => lemma_setup_text(s, rest),
        Move::Regular(r) => lemma_regular_text(r, rest),
    }
}

/// A short move's text, whatever follows it, reads back as the short move.
pub proof fn lemma_short_text_roundtrip(m: ShortMove, rest: Seq<u8>)
    ensures
        spec_short_len(spec_short_text(m) + rest) == Some(spec_short_text(m).len()),
        spec_short_parsed(spec_short_text(m) + rest, m),
{
    match m {
        ShortMove::Setup(s) => lemma_setup_text(s, rest),
        ShortMove::Regular { from, to } => {
            let t = spec_short_text(m) + rest;
            let to_text = spec_square_ascii(to);
            match from {
                ShortMoveFrom::Piece(cp) => {
                    assert(t.skip(1) =~= to_text + rest);
                    lemma_square_text(to, rest);
                    assert(!(49 <= t[1] <= 56));
                    assert(spec_piece_from_letter(t[2]) is None);
                },
                ShortMoveFrom::Square(f) => {
                    lemma_square_text(f, to_text + rest);
                    assert(t =~= spec_square_ascii(f) + (to_text + rest));
                    assert(t.skip(2) =~= to_text + rest);
                    lemma_square_text(to, rest);
                    assert(spec_piece_from_letter(t[1]) is None);
                },
            }
        },
    }
}

} // verus!
