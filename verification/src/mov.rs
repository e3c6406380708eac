use crate::color::Color;
use crate::parser::ParseError;
use crate::piece::{spec_initial_count, spec_piece_from_letter, spec_piece_letter, ColoredPiece, Piece};
use crate::square::{spec_square_ascii, Square};
use vstd::prelude::*;
use vstd::string::StringSliceAdditionalSpecFns;

verus! {

/// An opening (setup) move in the older notation: the pieces from square 0 (red) or
/// square 63 (blue), written from square 0 up for either color.
#[derive(Debug, Clone, Copy, PartialEq, Eq, Hash)]
pub struct OpeningMove {
    pub color: Color,
    pub pieces: [Piece; 16],
}

/// The piece written at position `i` of the text of an opening move of `color`.
pub open spec fn opening_text_piece(color: Color, pieces: Seq<Piece>, i: int) -> Piece {
    match color {
        Color::Red => pieces[i],
        Color::Blue => pieces[15 - i],
    }
}

/// The text of an opening move: the letters of its pieces, red's in placement order,
/// blue's reversed.
pub open spec fn spec_opening_text(m: OpeningMove) -> Seq<u8> {
    Seq::new(16, |i: int| spec_piece_letter(ColoredPiece::spec_new(opening_text_piece(m.color, m.pieces@, i), m.color)))
}

/// How many of the first `n` letters name a piece of kind `p`.
pub open spec fn letters_of_kind(input: Seq<u8>, n: nat, p: Piece) -> nat
    decreases n,
{
    if n == 0 {
        0
    } else {
        letters_of_kind(input, (n - 1) as nat, p) + if spec_piece_from_letter(input[n - 1]) matches Some(cp)
            && cp.spec_piece() == p {
            1nat
        } else {
            0nat
        }
    }
}

/// The text is an opening move: 16 piece letters of one color, no kind more often than a
/// player has it.
pub open spec fn spec_opening_text_ok(input: Seq<u8>) -> bool {
    &&& input.len() == 16
    &&& forall|i: int| 0 <= i < 16 ==> (#[trigger] spec_piece_from_letter(input[i])) is Some
    &&& forall|i: int|
        0 <= i < 16 ==> (#[trigger] spec_piece_from_letter(input[i]))->0.spec_color() == spec_piece_from_letter(
            input[0],
        )->0.spec_color()
    &&& forall|p: Piece| #[trigger] letters_of_kind(input, 16, p) <= spec_initial_count(p)
}

impl OpeningMove {
    /// Reads an opening move.
    pub fn parse_str(s: &str) -> (r: Result<OpeningMove, ParseError>)
        ensures
            r is Ok <==> spec_opening_text_ok(s.spec_bytes()),
            r matches Ok(m) ==> spec_opening_text(m) == s.spec_bytes(),
    {
        let input = s.as_bytes();
        if input.len() != 16 {
            return Err(ParseError);
        }
        let mut color: Option<Color> = None;
        let mut pieces = [Piece::Alfil; 16];
        let mut remaining: [usize; 5] = [8, 4, 2, 1, 1];
        let mut i: usize = 0;
        while i < 16
            invariant
                i <= 16,
                input@.len() == 16,
                input@ == s.spec_bytes(),
                pieces@.len() == 16,
                forall|j: int| 0 <= j < i ==> (#[trigger] spec_piece_from_letter(input@[j])) is Some,
                i > 0 ==> color == Some(spec_piece_from_letter(input@[0])->0.spec_color()),
                i == 0 ==> color is None,
                forall|j: int|
                    0 <= j < i ==> (#[trigger] spec_piece_from_letter(input@[j]))->0.spec_color() == spec_piece_from_letter(
                        input@[0],
                    )->0.spec_color(),
                forall|j: int| 0 <= j < i ==> pieces@[j] == (#[trigger] spec_piece_from_letter(input@[j]))->0.spec_piece(),
                forall|p: Piece| #[trigger] remaining@[p.spec_index() as int] + letters_of_kind(input@, i as nat, p) == spec_initial_count(p),
            decreases 16 - i,
        {
            let cp = match ColoredPiece::from_letter(input[i]) {
                Some(cp) => cp,
                None => {
                    return Err(ParseError);
                },
            };
            match color {
                None => {
                    color = Some(cp.color());
                },
                Some(c) => {
                    if c != cp.color() {
                        return Err(ParseError);
                    }
                },
            }
            let k = cp.piece().index();
            if remaining[k] == 0 {
                proof {
                    assert(letters_of_kind(input@, (i + 1) as nat, cp.spec_piece()) > spec_initial_count(cp.spec_piece()));
                    lemma_letters_mono(input@, (i + 1) as nat, 16, cp.spec_piece());
                }
                return Err(ParseError);
            }
            remaining[k] = remaining[k] - 1;
            pieces[i] = cp.piece();
            proof {
                assert forall|p: Piece| #[trigger] remaining@[p.spec_index() as int] + letters_of_kind(input@, (i + 1) as nat, p)
                    == spec_initial_count(p) by {
                    if p != cp.spec_piece() {
                        assert(p.spec_index() != k);
                    }
                }
            }
            i = i + 1;
        }
        proof {
            assert forall|p: Piece| #[trigger] letters_of_kind(input@, 16, p) <= spec_initial_count(p) by {
                assert(remaining@[p.spec_index() as int] + letters_of_kind(input@, 16, p) == spec_initial_count(p));
            }
        }
        let color = match color {
            Some(c) => c,
            None => Color::Red,
        };
        match color {
            Color::Red => {},
            Color::Blue => {
                let mut rev = [Piece::Alfil; 16];
                let mut j: usize = 0;
                while j < 16
                    invariant
                        j <= 16,
                        rev@.len() == 16,
                        pieces@.len() == 16,
                        forall|t: int| 0 <= t < j ==> rev@[t] == pieces@[15 - t],
                    decreases 16 - j,
                {
                    rev[j] = pieces[15 - j];
                    j = j + 1;
                }
                pieces = rev;
            },
        }
        let r = OpeningMove { color, pieces };
        proof {
            assert(spec_opening_text(r) =~= s.spec_bytes()) by {
                assert forall|t: int| 0 <= t < 16 implies spec_opening_text(r)[t] == input@[t] by {
                    let cp = spec_piece_from_letter(input@[t])->0;
                    lemma_letter_roundtrip(input@[t]);
                    assert(cp.spec_color() == color);
                }
            }
        }
        Ok(r)
    }

    /// Appends the text of the move.
    pub fn write_ascii(&self, out: &mut Vec<u8>)
        ensures
            final(out)@ == old(out)@ + spec_opening_text(*self),
    {
        let mut i: usize = 0;
        while i < 16
            invariant
                i <= 16,
                out@ == old(out)@ + spec_opening_text(*self).subrange(0, i as int),
            decreases 16 - i,
        {
            let piece = match self.color {
                Color::Red => self.pieces[i],
                Color::Blue => self.pieces[15 - i],
            };
            out.push(piece.with_color(self.color).letter());
            proof {
                assert(out@ =~= old(out)@ + spec_opening_text(*self).subrange(0, i + 1));
            }
            i = i + 1;
        }
        assert(spec_opening_text(*self).subrange(0, 16) =~= spec_opening_text(*self));
    }
}

proof fn lemma_letters_mono(input: Seq<u8>, a: nat, b: nat, p: Piece)
    requires
        a <= b,
    ensures
        letters_of_kind(input, a, p) <= letters_of_kind(input, b, p),
    decreases b,
{
    if a < b {
        lemma_letters_mono(input, a, (b - 1) as nat, p);
    }
}

/// The letter of the piece a letter names is that letter.
proof fn lemma_letter_roundtrip(b: u8)
    requires
        spec_piece_from_letter(b) is Some,
    ensures
        spec_piece_letter(spec_piece_from_letter(b)->0) == b,
        ColoredPiece::spec_new(spec_piece_from_letter(b)->0.spec_piece(), spec_piece_from_letter(b)->0.spec_color())
            == spec_piece_from_letter(b)->0,
{
}

/// A regular move in the older notation: a drop names the piece, a jump its origin.
#[derive(Debug, Clone, Copy, PartialEq, Eq, Hash)]
pub struct RegularMove {
    pub color: Color,
    pub piece: Piece,
    pub captured: Option<Piece>,
    pub from: Option<Square>,
    pub to: Square,
}

/// The text of a regular move: the piece letter for a drop, else the origin square; then
/// the target square.
pub open spec fn spec_old_regular_text(m: RegularMove) -> Seq<u8> {
    let head = match m.from {
        None => seq![spec_piece_letter(ColoredPiece::spec_new(m.piece, m.color))],
        Some(f) => spec_square_ascii(f),
    };
    head + spec_square_ascii(m.to)
}

impl RegularMove {
    /// Appends the text of the move.
    pub fn write_ascii(&self, out: &mut Vec<u8>)
        ensures
            final(out)@ == old(out)@ + spec_old_regular_text(*self),
    {
        match self.from {
            None => out.push(self.piece.with_color(self.color).letter()),
            Some(from) => from.write_ascii(out),
        }
        self.to.write_ascii(out);
        assert(out@ =~= old(out)@ + spec_old_regular_text(*self));
    }
}

/// A move in the older notation.
#[derive(Debug, Clone, Copy, PartialEq, Eq, Hash)]
pub enum Move {
    Opening(OpeningMove),
    Regular(RegularMove),
}

impl Move {
    /// Appends the text of the move.
    pub fn write_ascii(&self, out: &mut Vec<u8>)
        ensures
            final(out)@ == old(out)@ + match *self {
                Move::Opening(m) => spec_opening_text(m),
                Move::Regular(m) => spec_old_regular_text(m),
            },
    {
        match self {
            Move::Opening(m) => m.write_ascii(out),
            Move::Regular(m) => m.write_ascii(out),
        }
    }
}

} // verus!
