use crate::color::Color;
use crate::parser::{byte, ParseError, ParseResult, ParseSuccess, Parser};
use vstd::prelude::*;

verus! {

/// Number of squares on the board.
pub const NUM_SQUARES: usize = 64;

/// Width and height of the board.
pub const BOARD_WIDTH: usize = 8;

/// A square of the 8x8 board. `A1`..`A8` is the first row (red's side), `H1`..`H8` the last.
#[derive(Debug, Clone, Copy, PartialEq, Eq, Hash, Structural)]
pub enum Square {
    A1, A2, A3, A4, A5, A6, A7, A8,
    B1, B2, B3, B4, B5, B6, B7, B8,
    C1, C2, C3, C4, C5, C6, C7, C8,
    D1, D2, D3, D4, D5, D6, D7, D8,
    E1, E2, E3, E4, E5, E6, E7, E8,
    F1, F2, F3, F4, F5, F6, F7, F8,
    G1, G2, G3, G4, G5, G6, G7, G8,
    H1, H2, H3, H4, H5, H6, H7, H8,
}

impl Square {
    /// Index of the square: 8 * row + column.
    pub open spec fn spec_index(self) -> nat {
        match self {
            Square::A1 => 0,
            Square::A2 => 1,
            Square::A3 => 2,
            Square::A4 => 3,
            Square::A5 => 4,
            Square::A6 => 5,
            Square::A7 => 6,
            Square::A8 => 7,
            Square::B1 => 8,
            Square::B2 => 9,
            Square::B3 => 10,
            Square::B4 => 11,
            Square::B5 => 12,
            Square::B6 => 13,
            Square::B7 => 14,
            Square::B8 => 15,
            Square::C1 => 16,
            Square::C2 => 17,
            Square::C3 => 18,
            Square::C4 => 19,
            Square::C5 => 20,
            Square::C6 => 21,
            Square::C7 => 22,
            Square::C8 => 23,
            Square::D1 => 24,
            Square::D2 => 25,
            Square::D3 => 26,
            Square::D4 => 27,
            Square::D5 => 28,
            Square::D6 => 29,
            Square::D7 => 30,
            Square::D8 => 31,
            Square::E1 => 32,
            Square::E2 => 33,
            Square::E3 => 34,
            Square::E4 => 35,
            Square::E5 => 36,
            Square::E6 => 37,
            Square::E7 => 38,
            Square::E8 => 39,
            Square::F1 => 40,
            Square::F2 => 41,
            Square::F3 => 42,
            Square::F4 => 43,
            Square::F5 => 44,
            Square::F6 => 45,
            Square::F7 => 46,
            Square::F8 => 47,
            Square::G1 => 48,
            Square::G2 => 49,
            Square::G3 => 50,
            Square::G4 => 51,
            Square::G5 => 52,
            Square::G6 => 53,
            Square::G7 => 54,
            Square::G8 => 55,
            Square::H1 => 56,
            Square::H2 => 57,
            Square::H3 => 58,
            Square::H4 => 59,
            Square::H5 => 60,
            Square::H6 => 61,
            Square::H7 => 62,
            Square::H8 => 63,
        }
    }

    pub open spec fn spec_from_index(i: int) -> Square {
        if i == 0 { Square::A1 } else
        if i == 1 { Square::A2 } else
        if i == 2 { Square::A3 } else
        if i == 3 { Square::A4 } else
        if i == 4 { Square::A5 } else
        if i == 5 { Square::A6 } else
        if i == 6 { Square::A7 } else
        if i == 7 { Square::A8 } else
        if i == 8 { Square::B1 } else
        if i == 9 { Square::B2 } else
        if i == 10 { Square::B3 } else
        if i == 11 { Square::B4 } else
        if i == 12 { Square::B5 } else
        if i == 13 { Square::B6 } else
        if i == 14 { Square::B7 } else
        if i == 15 { Square::B8 } else
        if i == 16 { Square::C1 } else
        if i == 17 { Square::C2 } else
        if i == 18 { Square::C3 } else
        if i == 19 { Square::C4 } else
        if i == 20 { Square::C5 } else
        if i == 21 { Square::C6 } else
        if i == 22 { Square::C7 } else
        if i == 23 { Square::C8 } else
        if i == 24 { Square::D1 } else
        if i == 25 { Square::D2 } else
        if i == 26 { Square::D3 } else
        if i == 27 { Square::D4 } else
        if i == 28 { Square::D5 } else
        if i == 29 { Square::D6 } else
        if i == 30 { Square::D7 } else
        if i == 31 { Square::D8 } else
        if i == 32 { Square::E1 } else
        if i == 33 { Square::E2 } else
        if i == 34 { Square::E3 } else
        if i == 35 { Square::E4 } else
        if i == 36 { Square::E5 } else
        if i == 37 { Square::E6 } else
        if i == 38 { Square::E7 } else
        if i == 39 { Square::E8 } else
        if i == 40 { Square::F1 } else
        if i == 41 { Square::F2 } else
        if i == 42 { Square::F3 } else
        if i == 43 { Square::F4 } else
        if i == 44 { Square::F5 } else
        if i == 45 { Square::F6 } else
        if i == 46 { Square::F7 } else
        if i == 47 { Square::F8 } else
        if i == 48 { Square::G1 } else
        if i == 49 { Square::G2 } else
        if i == 50 { Square::G3 } else
        if i == 51 { Square::G4 } else
        if i == 52 { Square::G5 } else
        if i == 53 { Square::G6 } else
        if i == 54 { Square::G7 } else
        if i == 55 { Square::G8 } else
        if i == 56 { Square::H1 } else
        if i == 57 { Square::H2 } else
        if i == 58 { Square::H3 } else
        if i == 59 { Square::H4 } else
        if i == 60 { Square::H5 } else
        if i == 61 { Square::H6 } else
        if i == 62 { Square::H7 } else
        { Square::H8 }
    }

    pub fn index(self) -> (r: usize)
        ensures
            r == self.spec_index(),
            r < NUM_SQUARES,
    {
        match self {
            Square::A1 => 0,
            Square::A2 => 1,
            Square::A3 => 2,
            Square::A4 => 3,
            Square::A5 => 4,
            Square::A6 => 5,
            Square::A7 => 6,
            Square::A8 => 7,
            Square::B1 => 8,
            Square::B2 => 9,
            Square::B3 => 10,
            Square::B4 => 11,
            Square::B5 => 12,
            Square::B6 => 13,
            Square::B7 => 14,
            Square::B8 => 15,
            Square::C1 => 16,
            Square::C2 => 17,
            Square::C3 => 18,
            Square::C4 => 19,
            Square::C5 => 20,
            Square::C6 => 21,
            Square::C7 => 22,
            Square::C8 => 23,
            Square::D1 => 24,
            Square::D2 => 25,
            Square::D3 => 26,
            Square::D4 => 27,
            Square::D5 => 28,
            Square::D6 => 29,
            Square::D7 => 30,
            Square::D8 => 31,
            Square::E1 => 32,
            Square::E2 => 33,
            Square::E3 => 34,
            Square::E4 => 35,
            Square::E5 => 36,
            Square::E6 => 37,
            Square::E7 => 38,
            Square::E8 => 39,
            Square::F1 => 40,
            Square::F2 => 41,
            Square::F3 => 42,
            Square::F4 => 43,
            Square::F5 => 44,
            Square::F6 => 45,
            Square::F7 => 46,
            Square::F8 => 47,
            Square::G1 => 48,
            Square::G2 => 49,
            Square::G3 => 50,
            Square::G4 => 51,
            Square::G5 => 52,
            Square::G6 => 53,
            Square::G7 => 54,
            Square::G8 => 55,
            Square::H1 => 56,
            Square::H2 => 57,
            Square::H3 => 58,
            Square::H4 => 59,
            Square::H5 => 60,
            Square::H6 => 61,
            Square::H7 => 62,
            Square::H8 => 63,
        }
    }

    pub fn from_index(i: usize) -> (s: Square)
        requires
            i < NUM_SQUARES,
        ensures
            s.spec_index() == i,
            s == Square::spec_from_index(i as int),
    {
        match i {
            0 => Square::A1,
            1 => Square::A2,
            2 => Square::A3,
            3 => Square::A4,
            4 => Square::A5,
            5 => Square::A6,
            6 => Square::A7,
            7 => Square::A8,
            8 => Square::B1,
            9 => Square::B2,
            10 => Square::B3,
            11 => Square::B4,
            12 => Square::B5,
            13 => Square::B6,
            14 => Square::B7,
            15 => Square::B8,
            16 => Square::C1,
            17 => Square::C2,
            18 => Square::C3,
            19 => Square::C4,
            20 => Square::C5,
            21 => Square::C6,
            22 => Square::C7,
            23 => Square::C8,
            24 => Square::D1,
            25 => Square::D2,
            26 => Square::D3,
            27 => Square::D4,
            28 => Square::D5,
            29 => Square::D6,
            30 => Square::D7,
            31 => Square::D8,
            32 => Square::E1,
            33 => Square::E2,
            34 => Square::E3,
            35 => Square::E4,
            36 => Square::E5,
            37 => Square::E6,
            38 => Square::E7,
            39 => Square::E8,
            40 => Square::F1,
            41 => Square::F2,
            42 => Square::F3,
            43 => Square::F4,
            44 => Square::F5,
            45 => Square::F6,
            46 => Square::F7,
            47 => Square::F8,
            48 => Square::G1,
            49 => Square::G2,
            50 => Square::G3,
            51 => Square::G4,
            52 => Square::G5,
            53 => Square::G6,
            54 => Square::G7,
            55 => Square::G8,
            56 => Square::H1,
            57 => Square::H2,
            58 => Square::H3,
            59 => Square::H4,
            60 => Square::H5,
            61 => Square::H6,
            62 => Square::H7,
            _ => Square::H8,
        }
    }
}

/// Every square has an index below 64, and the index determines the square.
pub broadcast proof fn lemma_square_index(s: Square)
    ensures
        #[trigger] s.spec_index() < 64,
        Square::spec_from_index(s.spec_index() as int) == s,
{
}

/// `spec_from_index` inverts `spec_index` on `0..64`.
pub broadcast proof fn lemma_square_from_index(i: int)
    requires
        0 <= i < 64,
    ensures
        #[trigger] Square::spec_from_index(i).spec_index() == i,
{
}

/// Two squares with the same index are the same square.
pub proof fn lemma_square_index_injective(a: Square, b: Square)
    ensures
        a.spec_index() == b.spec_index() <==> a == b,
{
    lemma_square_index(a);
    lemma_square_index(b);
}

pub broadcast group group_square {
    lemma_square_index,
    lemma_square_from_index,
}

/// Column (0..8) of a square index.
pub open spec fn sq_x(i: int) -> int {
    i % 8
}

/// Row (0..8) of a square index.
pub open spec fn sq_y(i: int) -> int {
    i / 8
}

/// The square reached from index `i` by the offset `(dx, dy)`, if it is on the board.
pub open spec fn spec_square_add(i: int, dx: int, dy: int) -> Option<Square> {
    let x = sq_x(i) + dx;
    let y = sq_y(i) + dy;
    if 0 <= x < 8 && 0 <= y < 8 {
        Some(Square::spec_from_index(y * 8 + x))
    } else {
        None
    }
}

/// The 180 degree rotation of a square index.
pub open spec fn spec_rotate180(i: int) -> int {
    63 - i
}

/// The square as seen by `color`: itself for red, rotated by 180 degrees for blue.
pub open spec fn spec_pov(s: Square, color: Color) -> Square {
    match color {
        Color::Red => s,
        Color::Blue => Square::spec_from_index(spec_rotate180(s.spec_index() as int)),
    }
}

/// The two ASCII characters naming a square: row letter then column digit (`a1`).
pub open spec fn spec_square_ascii(s: Square) -> Seq<u8> {
    seq![(97 + sq_y(s.spec_index() as int)) as u8, (49 + sq_x(s.spec_index() as int)) as u8]
}

/// The input begins with a square name: a row letter `a`..`h`, then a column digit `1`..`8`.
pub open spec fn spec_is_square_name(input: Seq<u8>) -> bool {
    input.len() >= 2 && 97 <= input[0] <= 104 && 49 <= input[1] <= 56
}

/// The square named at the start of the input.
pub open spec fn spec_square_named(input: Seq<u8>) -> Square {
    Square::spec_from_index((input[0] - 97) * 8 + (input[1] - 49))
}

impl Square {
    /// The square at `direction` from this one, if it is on the board.
    pub fn add(self, direction: Direction) -> (r: Option<Square>)
        ensures
            r == spec_square_add(self.spec_index() as int, direction.spec_x(), direction.spec_y()),
    {
        match Coord::from_square(self).add(direction) {
            None => None,
            Some(coord2) => Some(Square::from_coord(coord2)),
        }
    }

    pub fn from_coord(coord: Coord) -> (s: Square)
        ensures
            s.spec_index() == coord.spec_y() * 8 + coord.spec_x(),
    {
        proof {
            use_type_invariant(&coord);
        }
        let index = (coord.y as usize) * BOARD_WIDTH + coord.x as usize;
        Square::from_index(index)
    }

    pub fn parser() -> SquareParser {
        SquareParser
    }

    /// The square as seen from `color`'s side of the board.
    pub fn pov(self, color: Color) -> (r: Square)
        ensures
            r == spec_pov(self, color),
    {
        match color {
            Color::Red => self,
            Color::Blue => Square::from_index(63 - self.index()),
        }
    }

    /// Appends the name of the square (`a1`) to `out`.
    pub fn write_ascii(self, out: &mut Vec<u8>)
        ensures
            final(out)@ == old(out)@ + spec_square_ascii(self),
    {
        let i = self.index();
        out.push((97 + i / 8) as u8);
        out.push((49 + i % 8) as u8);
        proof {
            assert(final(out)@ =~= old(out)@ + spec_square_ascii(self));
        }
    }
}

/// Parses a square name such as `c4`.
#[derive(Debug, Clone, Copy)]
pub struct SquareParser;

impl Parser for SquareParser {
    type Output = Square;

    open spec fn spec_parse_len(&self, input: Seq<u8>) -> Option<nat> {
        if spec_is_square_name(input) {
            Some(2nat)
        } else {
            None
        }
    }

    open spec fn spec_parse_value(&self, input: Seq<u8>, value: Square) -> bool {
        value == spec_square_named(input)
    }

    fn parse<'a>(&self, input: &'a [u8]) -> (r: ParseResult<'a, Square>) {
        match Coord::parser().parse(input) {
            Ok(s) => Ok(ParseSuccess { value: Square::from_coord(s.value), remaining: s.remaining }),
            Err(e) => Err(e),
        }
    }
}

/// A (column, row) pair, both in `0..8`.
#[derive(Debug, Clone, Copy, PartialEq, Eq, Hash)]
pub struct Coord {
    x: u8,
    y: u8,
}

impl Coord {
    #[verifier::type_invariant]
    spec fn inv(self) -> bool {
        self.x < 8 && self.y < 8
    }

    pub closed spec fn spec_x(self) -> int {
        self.x as int
    }

    pub closed spec fn spec_y(self) -> int {
        self.y as int
    }

    pub fn new(x: usize, y: usize) -> (c: Coord)
        requires
            x < BOARD_WIDTH,
            y < BOARD_WIDTH,
        ensures
            c.spec_x() == x,
            c.spec_y() == y,
    {
        Coord { x: x as u8, y: y as u8 }
    }

    pub fn x(self) -> (r: usize)
        ensures
            r == self.spec_x(),
            r < BOARD_WIDTH,
    {
        proof {
            use_type_invariant(&self);
        }
        self.x as usize
    }

    pub fn y(self) -> (r: usize)
        ensures
            r == self.spec_y(),
            r < BOARD_WIDTH,
    {
        proof {
            use_type_invariant(&self);
        }
        self.y as usize
    }

    pub fn from_square(square: Square) -> (c: Coord)
        ensures
            c.spec_x() == sq_x(square.spec_index() as int),
            c.spec_y() == sq_y(square.spec_index() as int),
    {
        let index = square.index();
        Coord { x: (index % BOARD_WIDTH) as u8, y: (index / BOARD_WIDTH) as u8 }
    }

    /// The coordinate at `direction` from this one, if it is on the board.
    pub fn add(self, direction: Direction) -> (r: Option<Coord>)
        ensures
            ({
                let x = self.spec_x() + direction.spec_x();
                let y = self.spec_y() + direction.spec_y();
                if 0 <= x < 8 && 0 <= y < 8 {
                    r is Some && r->0.spec_x() == x && r->0.spec_y() == y
                } else {
                    r is None
                }
            }),
    {
        proof {
            use_type_invariant(&self);
        }
        let dx = direction.x();
        let dy = direction.y();
        let x = self.x as isize + dx;
        let y = self.y as isize + dy;
        if 0 <= x && x < 8 && 0 <= y && y < 8 {
            Some(Coord { x: x as u8, y: y as u8 })
        } else {
            None
        }
    }

    pub fn parser() -> CoordParser {
        CoordParser
    }
}

/// Parses a coordinate: row letter `a`..`h`, then column digit `1`..`8`.
#[derive(Debug, Clone, Copy)]
pub struct CoordParser;

impl Parser for CoordParser {
    type Output = Coord;

    open spec fn spec_parse_len(&self, input: Seq<u8>) -> Option<nat> {
        if spec_is_square_name(input) {
            Some(2nat)
        } else {
            None
        }
    }

    open spec fn spec_parse_value(&self, input: Seq<u8>, value: Coord) -> bool {
        value.spec_x() == input[1] - 49 && value.spec_y() == input[0] - 97
    }

    fn parse<'a>(&self, input: &'a [u8]) -> (r: ParseResult<'a, Coord>) {
        let s1 = match byte().parse(input) {
            Ok(s) => s,
            Err(e) => return Err(e),
        };
        let b1 = s1.value;
        if !(97 <= b1 && b1 <= 104) {
            return Err(ParseError);
        }
        let s2 = match byte().parse(s1.remaining) {
            Ok(s) => s,
            Err(e) => return Err(e),
        };
        let b2 = s2.value;
        if !(49 <= b2 && b2 <= 56) {
            return Err(ParseError);
        }
        proof {
            assert(s2.remaining@ =~= input@.skip(2));
        }
        Ok(ParseSuccess { value: Coord { x: b2 - 49, y: b1 - 97 }, remaining: s2.remaining })
    }
}

/// An offset between squares, each component in `-7..=7`.
#[derive(Debug, Clone, Copy, PartialEq, Eq, Hash)]
pub struct Direction {
    x: i8,
    y: i8,
}

impl Direction {
    #[verifier::type_invariant]
    spec fn inv(self) -> bool {
        -7 <= self.x <= 7 && -7 <= self.y <= 7
    }

    pub closed spec fn spec_x(self) -> int {
        self.x as int
    }

    pub closed spec fn spec_y(self) -> int {
        self.y as int
    }

    pub fn new(x: isize, y: isize) -> (d: Direction)
        requires
            -7 <= x <= 7,
            -7 <= y <= 7,
        ensures
            d.spec_x() == x,
            d.spec_y() == y,
    {
        Direction { x: x as i8, y: y as i8 }
    }

    pub fn x(self) -> (r: isize)
        ensures
            r == self.spec_x(),
            -7 <= r <= 7,
    {
        proof {
            use_type_invariant(&self);
        }
        self.x as isize
    }

    pub fn y(self) -> (r: isize)
        ensures
            r == self.spec_y(),
            -7 <= r <= 7,
    {
        proof {
            use_type_invariant(&self);
        }
        self.y as isize
    }
}

} // verus!
