use crate::color::{Color, NUM_COLORS};
use crate::parser::{byte, ParseError, ParseResult, ParseSuccess, Parser};
use crate::square::Direction;
use vstd::prelude::*;

verus! {

/// The five kinds of leapers.
#[derive(Debug, Clone, Copy, PartialEq, Eq, Hash, PartialOrd, Ord, Structural)]
pub enum Piece {
    Alfil,
    Dabbaba,
    Ferz,
    Knight,
    Wazir,
}

/// Number of piece kinds.
pub const NUM_PIECES: usize = 5;

/// How many pieces of a kind each player starts with.
pub open spec fn spec_initial_count(p: Piece) -> nat {
    match p {
        Piece::Alfil => 8,
        Piece::Dabbaba => 4,
        Piece::Ferz => 2,
        Piece::Knight => 1,
        Piece::Wazir => 1,
    }
}

/// The leaps of a piece, as (column offset, row offset).
pub open spec fn spec_directions(p: Piece) -> Seq<(int, int)> {
    match p {
        Piece::Alfil => seq![(-2, -2), (2, -2), (-2, 2), (2, 2)],
        Piece::Dabbaba => seq![(0, -2), (-2, 0), (2, 0), (0, 2)],
        Piece::Ferz => seq![(-1, -1), (1, -1), (-1, 1), (1, 1)],
        Piece::Knight => seq![
            (-1, -2),
            (1, -2),
            (-2, -1),
            (2, -1),
            (-2, 1),
            (2, 1),
            (-1, 2),
            (1, 2),
        ],
        Piece::Wazir => seq![(0, -1), (-1, 0), (1, 0), (0, 1)],
    }
}

impl Piece {
    pub open spec fn spec_index(self) -> nat {
        match self {
            Piece::Alfil => 0,
            Piece::Dabbaba => 1,
            Piece::Ferz => 2,
            Piece::Knight => 3,
            Piece::Wazir => 4,
        }
    }

    pub open spec fn spec_from_index(i: int) -> Piece {
        if i == 0 {
            Piece::Alfil
        } else if i == 1 {
            Piece::Dabbaba
        } else if i == 2 {
            Piece::Ferz
        } else if i == 3 {
            Piece::Knight
        } else {
            Piece::Wazir
        }
    }

    pub fn index(self) -> (r: usize)
        ensures
            r == self.spec_index(),
            r < NUM_PIECES,
    {
        match self {
            Piece::Alfil => 0,
            Piece::Dabbaba => 1,
            Piece::Ferz => 2,
            Piece::Knight => 3,
            Piece::Wazir => 4,
        }
    }

    pub fn from_index(i: usize) -> (p: Piece)
        requires
            i < NUM_PIECES,
        ensures
            p.spec_index() == i,
            p == Piece::spec_from_index(i as int),
    {
        if i == 0 {
            Piece::Alfil
        } else if i == 1 {
            Piece::Dabbaba
        } else if i == 2 {
            Piece::Ferz
        } else if i == 3 {
            Piece::Knight
        } else {
            Piece::Wazir
        }
    }

    /// How many pieces of this kind each player starts with.
    pub fn initial_count(self) -> (r: usize)
        ensures
            r == spec_initial_count(self),
    {
        match self {
            Piece::Alfil => 8,
            Piece::Dabbaba => 4,
            Piece::Ferz => 2,
            Piece::Knight => 1,
            Piece::Wazir => 1,
        }
    }

    /// How many pieces of this kind are in the game, both colors together.
    pub fn total_count(self) -> (r: usize)
        ensures
            r == 2 * spec_initial_count(self),
    {
        2 * self.initial_count()
    }

    /// The leaps of this piece.
    pub fn directions(self) -> (r: Vec<Direction>)
        ensures
            r@.len() == spec_directions(self).len(),
            forall|i: int|
                0 <= i < r@.len() ==> (#[trigger] r@[i].spec_x(), r@[i].spec_y())
                    == spec_directions(self)[i],
    {
        let r = match self {
            Piece::Alfil => vec![
                Direction::new(-2, -2),
                Direction::new(2, -2),
                Direction::new(-2, 2),
                Direction::new(2, 2),
            ],
            Piece::Dabbaba => vec![
                Direction::new(0, -2),
                Direction::new(-2, 0),
                Direction::new(2, 0),
                Direction::new(0, 2),
            ],
            Piece::Ferz => vec![
                Direction::new(-1, -1),
                Direction::new(1, -1),
                Direction::new(-1, 1),
                Direction::new(1, 1),
            ],
            Piece::Knight => vec![
                Direction::new(-1, -2),
                Direction::new(1, -2),
                Direction::new(-2, -1),
                Direction::new(2, -1),
                Direction::new(-2, 1),
                Direction::new(2, 1),
                Direction::new(-1, 2),
                Direction::new(1, 2),
            ],
            Piece::Wazir => vec![
                Direction::new(0, -1),
                Direction::new(-1, 0),
                Direction::new(1, 0),
                Direction::new(0, 1),
            ],
        };
        proof {
            assert forall|i: int| 0 <= i < r@.len() implies (#[trigger] r@[i].spec_x(), r@[i].spec_y())
                == spec_directions(self)[i] by {
            }
        }
        r
    }

    pub fn with_color(self, color: Color) -> (r: ColoredPiece)
        ensures
            r == ColoredPiece::spec_new(self, color),
            r.spec_piece() == self,
            r.spec_color() == color,
    {
        ColoredPiece::from_index(self.index() * NUM_COLORS + color.index())
    }
}

/// A piece of a given color.
#[derive(Debug, Clone, Copy, PartialEq, Eq, Hash, Structural)]
pub enum ColoredPiece {
    RedAlfil,
    BlueAlfil,
    RedDabbaba,
    BlueDabbaba,
    RedFerz,
    BlueFerz,
    RedKnight,
    BlueKnight,
    RedWazir,
    BlueWazir,
}

/// Number of colored pieces.
pub const NUM_COLORED_PIECES: usize = 10;

/// The letter of a colored piece: upper case for red, lower case for blue.
pub open spec fn spec_piece_letter(cp: ColoredPiece) -> u8 {
    match cp {
        ColoredPiece::RedAlfil => 65,
        ColoredPiece::BlueAlfil => 97,
        ColoredPiece::RedDabbaba => 68,
        ColoredPiece::BlueDabbaba => 100,
        ColoredPiece::RedFerz => 70,
        ColoredPiece::BlueFerz => 102,
        ColoredPiece::RedKnight => 78,
        ColoredPiece::BlueKnight => 110,
        ColoredPiece::RedWazir => 87,
        ColoredPiece::BlueWazir => 119,
    }
}

/// The colored piece named by a letter, if any.
pub open spec fn spec_piece_from_letter(b: u8) -> Option<ColoredPiece> {
    if b == 65 {
        Some(ColoredPiece::RedAlfil)
    } else if b == 97 {
        Some(ColoredPiece::BlueAlfil)
    } else if b == 68 {
        Some(ColoredPiece::RedDabbaba)
    } else if b == 100 {
        Some(ColoredPiece::BlueDabbaba)
    } else if b == 70 {
        Some(ColoredPiece::RedFerz)
    } else if b == 102 {
        Some(ColoredPiece::BlueFerz)
    } else if b == 78 {
        Some(ColoredPiece::RedKnight)
    } else if b == 110 {
        Some(ColoredPiece::BlueKnight)
    } else if b == 87 {
        Some(ColoredPiece::RedWazir)
    } else if b == 119 {
        Some(ColoredPiece::BlueWazir)
    } else {
        None
    }
}

impl ColoredPiece {
    pub open spec fn spec_index(self) -> nat {
        match self {
            ColoredPiece::RedAlfil => 0,
            ColoredPiece::BlueAlfil => 1,
            ColoredPiece::RedDabbaba => 2,
            ColoredPiece::BlueDabbaba => 3,
            ColoredPiece::RedFerz => 4,
            ColoredPiece::BlueFerz => 5,
            ColoredPiece::RedKnight => 6,
            ColoredPiece::BlueKnight => 7,
            ColoredPiece::RedWazir => 8,
            ColoredPiece::BlueWazir => 9,
        }
    }

    pub open spec fn spec_from_index(i: int) -> ColoredPiece {
        if i == 0 {
            ColoredPiece::RedAlfil
        } else if i == 1 {
            ColoredPiece::BlueAlfil
        } else if i == 2 {
            ColoredPiece::RedDabbaba
        } else if i == 3 {
            ColoredPiece::BlueDabbaba
        } else if i == 4 {
            ColoredPiece::RedFerz
        } else if i == 5 {
            ColoredPiece::BlueFerz
        } else if i == 6 {
            ColoredPiece::RedKnight
        } else if i == 7 {
            ColoredPiece::BlueKnight
        } else if i == 8 {
            ColoredPiece::RedWazir
        } else {
            ColoredPiece::BlueWazir
        }
    }

    pub open spec fn spec_new(piece: Piece, color: Color) -> ColoredPiece {
        ColoredPiece::spec_from_index((piece.spec_index() * 2 + color.spec_index()) as int)
    }

    pub open spec fn spec_color(self) -> Color {
        Color::spec_from_index((self.spec_index() % 2) as int)
    }

    pub open spec fn spec_piece(self) -> Piece {
        Piece::spec_from_index((self.spec_index() / 2) as int)
    }

    pub fn index(self) -> (r: usize)
        ensures
            r == self.spec_index(),
            r < NUM_COLORED_PIECES,
    {
        match self {
            ColoredPiece::RedAlfil => 0,
            ColoredPiece::BlueAlfil => 1,
            ColoredPiece::RedDabbaba => 2,
            ColoredPiece::BlueDabbaba => 3,
            ColoredPiece::RedFerz => 4,
            ColoredPiece::BlueFerz => 5,
            ColoredPiece::RedKnight => 6,
            ColoredPiece::BlueKnight => 7,
            ColoredPiece::RedWazir => 8,
            ColoredPiece::BlueWazir => 9,
        }
    }

    pub fn from_index(i: usize) -> (r: ColoredPiece)
        requires
            i < NUM_COLORED_PIECES,
        ensures
            r.spec_index() == i,
            r == ColoredPiece::spec_from_index(i as int),
    {
        if i == 0 {
            ColoredPiece::RedAlfil
        } else if i == 1 {
            ColoredPiece::BlueAlfil
        } else if i == 2 {
            ColoredPiece::RedDabbaba
        } else if i == 3 {
            ColoredPiece::BlueDabbaba
        } else if i == 4 {
            ColoredPiece::RedFerz
        } else if i == 5 {
            ColoredPiece::BlueFerz
        } else if i == 6 {
            ColoredPiece::RedKnight
        } else if i == 7 {
            ColoredPiece::BlueKnight
        } else if i == 8 {
            ColoredPiece::RedWazir
        } else {
            ColoredPiece::BlueWazir
        }
    }

    pub fn parser() -> ColoredPieceParser {
        ColoredPieceParser
    }

    pub fn color(self) -> (r: Color)
        ensures
            r == self.spec_color(),
    {
        Color::from_index(self.index() % NUM_COLORS)
    }

    pub fn piece(self) -> (r: Piece)
        ensures
            r == self.spec_piece(),
    {
        Piece::from_index(self.index() / NUM_COLORS)
    }

    /// The letter naming this piece.
    pub fn letter(self) -> (r: u8)
        ensures
            r == spec_piece_letter(self),
    {
        match self {
            ColoredPiece::RedAlfil => 65u8,
            ColoredPiece::BlueAlfil => 97u8,
            ColoredPiece::RedDabbaba => 68u8,
            ColoredPiece::BlueDabbaba => 100u8,
            ColoredPiece::RedFerz => 70u8,
            ColoredPiece::BlueFerz => 102u8,
            ColoredPiece::RedKnight => 78u8,
            ColoredPiece::BlueKnight => 110u8,
            ColoredPiece::RedWazir => 87u8,
            ColoredPiece::BlueWazir => 119u8,
        }
    }

    /// The colored piece named by a letter, if any.
    pub fn from_letter(b: u8) -> (r: Option<ColoredPiece>)
        ensures
            r == spec_piece_from_letter(b),
    {
        if b == 65u8 {
            Some(ColoredPiece::RedAlfil)
        } else if b == 97u8 {
            Some(ColoredPiece::BlueAlfil)
        } else if b == 68u8 {
            Some(ColoredPiece::RedDabbaba)
        } else if b == 100u8 {
            Some(ColoredPiece::BlueDabbaba)
        } else if b == 70u8 {
            Some(ColoredPiece::RedFerz)
        } else if b == 102u8 {
            Some(ColoredPiece::BlueFerz)
        } else if b == 78u8 {
            Some(ColoredPiece::RedKnight)
        } else if b == 110u8 {
            Some(ColoredPiece::BlueKnight)
        } else if b == 87u8 {
            Some(ColoredPiece::RedWazir)
        } else if b == 119u8 {
            Some(ColoredPiece::BlueWazir)
        } else {
            None
        }
    }
}

/// Decomposing a colored piece and putting it back together gives the same piece.
pub broadcast proof fn lemma_colored_piece_parts(cp: ColoredPiece)
    ensures
        #[trigger] ColoredPiece::spec_new(cp.spec_piece(), cp.spec_color()) == cp,
{
}

/// Building a colored piece keeps its kind and color.
pub broadcast proof fn lemma_colored_piece_new(p: Piece, c: Color)
    ensures
        #[trigger] ColoredPiece::spec_new(p, c).spec_piece() == p,
        ColoredPiece::spec_new(p, c).spec_color() == c,
{
}

/// Letters name colored pieces one to one.
pub broadcast proof fn lemma_piece_letter(cp: ColoredPiece)
    ensures
        #[trigger] spec_piece_from_letter(spec_piece_letter(cp)) == Some(cp),
{
}

pub broadcast group group_piece {
    lemma_colored_piece_parts,
    lemma_colored_piece_new,
    lemma_piece_letter,
}

/// Parses a piece letter.
#[derive(Debug, Clone, Copy)]
pub struct ColoredPieceParser;

impl Parser for ColoredPieceParser {
    type Output = ColoredPiece;

    open spec fn spec_parse_len(&self, input: Seq<u8>) -> Option<nat> {
        if input.len() >= 1 && spec_piece_from_letter(input[0]) is Some {
            Some(1nat)
        } else {
            None
        }
    }

    open spec fn spec_parse_value(&self, input: Seq<u8>, value: ColoredPiece) -> bool {
        Some(value) == spec_piece_from_letter(input[0])
    }

    fn parse<'a>(&self, input: &'a [u8]) -> (r: ParseResult<'a, ColoredPiece>) {
        let s = match byte().parse(input) {
            Ok(s) => s,
            Err(e) => return Err(e),
        };
        match ColoredPiece::from_letter(s.value) {
            Some(cp) => Ok(ParseSuccess { value: cp, remaining: s.remaining }),
            None => Err(ParseError),
        }
    }
}

} // verus!
