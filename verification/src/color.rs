use crate::bitboard::{bit_at, Bitboard};
use crate::parser::{exact, starts_with, ParseError, ParseResult, ParseSuccess, Parser};
use crate::square::{group_square, Square};
use vstd::prelude::*;

verus! {

/// The two players. Red sets up first and moves first.
#[derive(Debug, Clone, Copy, PartialEq, Eq, Hash, Structural)]
pub enum Color {
    Red,
    Blue,
}

/// Number of colors.
pub const NUM_COLORS: usize = 2;

impl Color {
    /// Position of the color in `[Red, Blue]`.
    pub open spec fn spec_index(self) -> nat {
        match self {
            Color::Red => 0,
            Color::Blue => 1,
        }
    }

    pub open spec fn spec_from_index(i: int) -> Color {
        if i == 0 {
            Color::Red
        } else {
            Color::Blue
        }
    }

    pub open spec fn spec_opposite(self) -> Color {
        match self {
            Color::Red => Color::Blue,
            Color::Blue => Color::Red,
        }
    }

    pub fn index(self) -> (r: usize)
        ensures
            r == self.spec_index(),
            r < NUM_COLORS,
    {
        match self {
            Color::Red => 0,
            Color::Blue => 1,
        }
    }

    pub fn from_index(i: usize) -> (c: Color)
        requires
            i < NUM_COLORS,
        ensures
            c.spec_index() == i,
            c == Color::spec_from_index(i as int),
    {
        if i == 0 {
            Color::Red
        } else {
            Color::Blue
        }
    }

    pub fn parser() -> ColorParser {
        ColorParser
    }

    /// The squares where this color sets up its pieces: the first two rows for red,
    /// the last two for blue.
    pub fn initial_squares(self) -> (r: Bitboard)
        ensures
            r@ == spec_initial_squares(self),
    {
        let bits: u64 = match self {
            Color::Red => 0xffffu64,
            Color::Blue => 0xffffu64 << 48u64,
        };
        let r = Bitboard::from_bits(bits);
        proof {
            broadcast use group_square;

            assert forall|s: Square| r@.contains(s) == spec_initial_squares(self).contains(s) by {
                let i = s.spec_index() as u64;
                assert(i < 64);
                assert(((0xffffu64 >> i) & 1u64 == 1u64) == (i < 16)) by (bit_vector)
                    requires
                        i < 64,
                ;
                assert((((0xffffu64 << 48u64) >> i) & 1u64 == 1u64) == (i >= 48)) by (bit_vector)
                    requires
                        i < 64,
                ;
            }
            assert(r@ =~= spec_initial_squares(self));
        }
        r
    }

    pub fn opposite(self) -> (r: Color)
        ensures
            r == self.spec_opposite(),
            r != self,
    {
        match self {
            Color::Red => Color::Blue,
            Color::Blue => Color::Red,
        }
    }
}

/// The setup squares of a color.
pub open spec fn spec_initial_squares(c: Color) -> Set<Square> {
    match c {
        Color::Red => Set::new(|s: Square| s.spec_index() < 16),
        Color::Blue => Set::new(|s: Square| s.spec_index() >= 48),
    }
}

/// Parses `red` or `blue`.
#[derive(Debug, Clone, Copy)]
pub struct ColorParser;

impl Parser for ColorParser {
    type Output = Color;

    open spec fn spec_parse_len(&self, input: Seq<u8>) -> Option<nat> {
        if starts_with(input, seq![114u8, 101u8, 100u8]) {
            Some(3nat)
        } else if starts_with(input, seq![98u8, 108u8, 117u8, 101u8]) {
            Some(4nat)
        } else {
            None
        }
    }

    open spec fn spec_parse_value(&self, input: Seq<u8>, value: Color) -> bool {
        value == if starts_with(input, seq![114u8, 101u8, 100u8]) {
            Color::Red
        } else {
            Color::Blue
        }
    }

    fn parse<'a>(&self, input: &'a [u8]) -> (r: ParseResult<'a, Color>) {
        let red: [u8; 3] = [114u8, 101u8, 100u8];
        let blue: [u8; 4] = [98u8, 108u8, 117u8, 101u8];
        proof {
            assert(red@ =~= seq![114u8, 101u8, 100u8]);
            assert(blue@ =~= seq![98u8, 108u8, 117u8, 101u8]);
        }
        match exact(&red).parse(input) {
            Ok(s) => return Ok(ParseSuccess { value: Color::Red, remaining: s.remaining }),
            Err(_) => {},
        }
        match exact(&blue).parse(input) {
            Ok(s) => Ok(ParseSuccess { value: Color::Blue, remaining: s.remaining }),
            Err(e) => Err(e),
        }
    }
}

} // verus!
