use crate::bitboard::{bit_at, popcount_below, Bitboard};
use crate::color::{Color, NUM_COLORS};
use crate::error::Invalid;
use crate::parser::{ParseError, ParseResult, ParseSuccess, Parser};
use crate::piece::{
    group_piece, spec_piece_from_letter, spec_piece_letter, ColoredPiece, NUM_COLORED_PIECES,
};
use crate::square::{group_square, lemma_square_index_injective, Square, NUM_SQUARES};
use crate::zobrist::{lemma_xor3, piece_square, spec_piece_square_key};
use vstd::prelude::*;

verus! {

broadcast use {group_square, group_piece};

/// What stands on square index `i`, as a contribution to the hash.
pub open spec fn square_term(b: Seq<Option<ColoredPiece>>, i: int) -> u64 {
    match b[i] {
        Some(cp) => spec_piece_square_key(cp, Square::spec_from_index(i)),
        None => 0u64,
    }
}

/// XOR of the keys of the pieces on the squares below index `n`.
pub open spec fn board_hash_below(b: Seq<Option<ColoredPiece>>, n: nat) -> u64
    decreases n,
{
    if n == 0 {
        0u64
    } else {
        board_hash_below(b, (n - 1) as nat) ^ square_term(b, n - 1)
    }
}

/// Hash of a board: XOR of the keys of all (piece, square) pairs on it.
pub open spec fn spec_board_hash(b: Seq<Option<ColoredPiece>>) -> u64 {
    board_hash_below(b, 64)
}

/// Number of squares below index `n` holding `cp`.
pub open spec fn count_piece_below(b: Seq<Option<ColoredPiece>>, cp: ColoredPiece, n: nat) -> nat
    decreases n,
{
    if n == 0 {
        0
    } else {
        count_piece_below(b, cp, (n - 1) as nat) + if b[n - 1] == Some(cp) {
            1nat
        } else {
            0nat
        }
    }
}

/// Number of squares holding `cp`.
pub open spec fn spec_count_piece(b: Seq<Option<ColoredPiece>>, cp: ColoredPiece) -> nat {
    count_piece_below(b, cp, 64)
}

/// The squares holding `cp`.
pub open spec fn spec_piece_set(b: Seq<Option<ColoredPiece>>, cp: ColoredPiece) -> Set<Square> {
    Set::new(|s: Square| b[s.spec_index() as int] == Some(cp))
}

/// The squares holding a piece of `color`.
pub open spec fn spec_color_set(b: Seq<Option<ColoredPiece>>, color: Color) -> Set<Square> {
    Set::new(
        |s: Square|
            b[s.spec_index() as int] is Some && b[s.spec_index() as int]->0.spec_color() == color,
    )
}

/// The empty squares.
pub open spec fn spec_empty_set(b: Seq<Option<ColoredPiece>>) -> Set<Square> {
    Set::new(|s: Square| b[s.spec_index() as int] is None)
}

/// The board with nothing on it.
pub open spec fn spec_empty_board() -> Seq<Option<ColoredPiece>> {
    Seq::new(64, |i: int| None::<ColoredPiece>)
}

/// Changing one square changes the hash by that square's old and new keys.
pub proof fn lemma_board_hash_update(
    b: Seq<Option<ColoredPiece>>,
    k: int,
    v: Option<ColoredPiece>,
    n: nat,
)
    requires
        b.len() == 64,
        0 <= k < 64,
        n <= 64,
    ensures
        board_hash_below(b.update(k, v), n) == if k < n {
            board_hash_below(b, n) ^ square_term(b, k) ^ square_term(b.update(k, v), k)
        } else {
            board_hash_below(b, n)
        },
    decreases n,
{
    let b2 = b.update(k, v);
    if n > 0 {
        lemma_board_hash_update(b, k, v, (n - 1) as nat);
        let h = board_hash_below(b, (n - 1) as nat);
        let t = square_term(b, k);
        let t2 = square_term(b2, k);
        let c = square_term(b, n - 1);
        if k == n - 1 {
            lemma_xor3(h, t, t2);
            lemma_xor3(h, t, t);
        } else if k < n - 1 {
            assert(square_term(b2, n - 1) == c);
            assert((((h ^ t) ^ t2) ^ c) == (((h ^ c) ^ t) ^ t2)) by (bit_vector);
        } else {
            assert(square_term(b2, n - 1) == c);
        }
    }
}

/// Changing one square changes the count of `cp` by that square's old and new contents.
pub proof fn lemma_count_piece_update(
    b: Seq<Option<ColoredPiece>>,
    cp: ColoredPiece,
    k: int,
    v: Option<ColoredPiece>,
    n: nat,
)
    requires
        b.len() == 64,
        0 <= k < 64,
        n <= 64,
    ensures
        count_piece_below(b.update(k, v), cp, n) + (if k < n && b[k] == Some(cp) {
            1int
        } else {
            0
        }) == count_piece_below(b, cp, n) + (if k < n && v == Some(cp) {
            1int
        } else {
            0
        }),
    decreases n,
{
    if n > 0 {
        lemma_count_piece_update(b, cp, k, v, (n - 1) as nat);
    }
}

/// The number of set bits of a piece bitboard is the number of squares holding the piece.
pub proof fn lemma_bits_count(bits: u64, b: Seq<Option<ColoredPiece>>, cp: ColoredPiece, n: nat)
    requires
        b.len() == 64,
        n <= 64,
        bits_to_set_eq(bits, spec_piece_set(b, cp)),
    ensures
        popcount_below(bits, n) == count_piece_below(b, cp, n),
    decreases n,
{
    if n > 0 {
        lemma_bits_count(bits, b, cp, (n - 1) as nat);
        let s = Square::spec_from_index(n - 1);
        assert(s.spec_index() == n - 1);
        assert(bit_at(bits, s.spec_index()) == spec_piece_set(b, cp).contains(s));
    }
}

/// The squares whose index bit is set in `bits` are exactly `set`.
pub open spec fn bits_to_set_eq(bits: u64, set: Set<Square>) -> bool {
    forall|s: Square| #[trigger] set.contains(s) == bit_at(bits, s.spec_index())
}

/// The board: what stands on each square, with bitboards and a hash kept in step.
#[derive(Debug, Clone, Copy)]
pub struct Board {
    squares: [Option<ColoredPiece>; 64],
    occupied_by: [Bitboard; 2],
    empty_squares: Bitboard,
    piece_maps: [Bitboard; 10],
    hash: u64,
}

impl View for Board {
    type V = Seq<Option<ColoredPiece>>;

    closed spec fn view(&self) -> Seq<Option<ColoredPiece>> {
        self.squares@
    }
}

impl Board {
    #[verifier::type_invariant]
    spec fn inv(self) -> bool {
        &&& forall|cp: ColoredPiece|
            #![trigger self.piece_maps@[cp.spec_index() as int]]
            self.piece_maps@[cp.spec_index() as int]@ == spec_piece_set(self.squares@, cp)
        &&& forall|c: Color|
            #![trigger self.occupied_by@[c.spec_index() as int]]
            self.occupied_by@[c.spec_index() as int]@ == spec_color_set(self.squares@, c)
        &&& self.empty_squares@ == spec_empty_set(self.squares@)
        &&& self.hash == spec_board_hash(self.squares@)
    }

    /// The board always has 64 squares.
    pub proof fn lemma_len(self)
        ensures
            self@.len() == 64,
    {
    }

    pub fn empty() -> (r: Board)
        ensures
            r@ == spec_empty_board(),
    {
        let e = Bitboard::empty();
        let all = Bitboard::all();
        let nothing: Option<ColoredPiece> = None;
        let mut squares: [Option<ColoredPiece>; 64] = [nothing; 64];
        let mut i: usize = 0;
        while i < NUM_SQUARES
            invariant
                i <= 64,
                squares@.len() == 64,
                forall|j: int| 0 <= j < i ==> squares@[j] == None::<ColoredPiece>,
            decreases 64 - i,
        {
            squares[i] = None;
            i += 1;
        }
        let occupied_by: [Bitboard; 2] = [e; 2];
        let piece_maps: [Bitboard; 10] = [e; 10];
        proof {
            broadcast use vstd::array::group_array_axioms;

            assert(squares@ =~= spec_empty_board());
            assert forall|cp: ColoredPiece|
                #![trigger piece_maps@[cp.spec_index() as int]]
                piece_maps@[cp.spec_index() as int]@ == spec_piece_set(squares@, cp) by {
                assert(spec_piece_set(squares@, cp) =~= Set::<Square>::empty());
            }
            assert forall|c: Color|
                #![trigger occupied_by@[c.spec_index() as int]]
                occupied_by@[c.spec_index() as int]@ == spec_color_set(squares@, c) by {
                assert(spec_color_set(squares@, c) =~= Set::<Square>::empty());
            }
            assert(spec_empty_set(squares@) =~= Set::<Square>::full());
            lemma_empty_hash(squares@, 64);
        }
        Board { squares, occupied_by, empty_squares: all, piece_maps, hash: 0 }
    }

    pub fn square(&self, square: Square) -> (r: Option<ColoredPiece>)
        ensures
            r == self@[square.spec_index() as int],
    {
        self.squares[square.index()]
    }

    pub fn occupied_by(&self, color: Color) -> (r: Bitboard)
        ensures
            r@ == spec_color_set(self@, color),
    {
        proof {
            use_type_invariant(self);
        }
        self.occupied_by[color.index()]
    }

    pub fn empty_squares(&self) -> (r: Bitboard)
        ensures
            r@ == spec_empty_set(self@),
    {
        proof {
            use_type_invariant(self);
        }
        self.empty_squares
    }

    pub fn piece_map(&self, cpiece: ColoredPiece) -> (r: Bitboard)
        ensures
            r@ == spec_piece_set(self@, cpiece),
            r.spec_count() == spec_count_piece(self@, cpiece),
    {
        proof {
            use_type_invariant(self);
        }
        let r = self.piece_maps[cpiece.index()];
        proof {
            assert(bits_to_set_eq(r.bits, spec_piece_set(self@, cpiece))) by {
                assert forall|s: Square|
                    #[trigger] spec_piece_set(self@, cpiece).contains(s) == bit_at(
                        r.bits,
                        s.spec_index(),
                    ) by {
                    assert(r@.contains(s) == bit_at(r.bits, s.spec_index()));
                }
            }
            lemma_bits_count(r.bits, self@, cpiece, 64);
        }
        r
    }

    /// Number of squares holding `cpiece`.
    pub fn count_piece(&self, cpiece: ColoredPiece) -> (r: usize)
        ensures
            r == spec_count_piece(self@, cpiece),
            r <= 64,
    {
        self.piece_map(cpiece).count()
    }

    pub fn hash(&self) -> (r: u64)
        ensures
            r == spec_board_hash(self@),
    {
        proof {
            use_type_invariant(self);
        }
        self.hash
    }

    /// Puts `cpiece` on an empty square; fails if the square is occupied.
    pub fn place_piece(&mut self, square: Square, cpiece: ColoredPiece) -> (r: Result<(), Invalid>)
        ensures
            old(self)@[square.spec_index() as int] is Some ==> r is Err && final(self)@ == old(
                self,
            )@,
            old(self)@[square.spec_index() as int] is None ==> r is Ok && final(self)@ == old(
                self,
            )@.update(square.spec_index() as int, Some(cpiece)),
    {
        proof {
            use_type_invariant(&*self);
        }
        let i = square.index();
        if self.squares[i].is_some() {
            return Err(Invalid);
        }
        self.set_square(square, Some(cpiece));
        Ok(())
    }

    /// Takes `cpiece` off a square; fails if the square does not hold it.
    pub fn remove_piece(&mut self, square: Square, cpiece: ColoredPiece) -> (r: Result<(), Invalid>)
        ensures
            old(self)@[square.spec_index() as int] != Some(cpiece) ==> r is Err && final(self)@
                == old(self)@,
            old(self)@[square.spec_index() as int] == Some(cpiece) ==> r is Ok && final(self)@
                == old(self)@.update(square.spec_index() as int, None),
    {
        proof {
            use_type_invariant(&*self);
        }
        let i = square.index();
        match self.squares[i] {
            Some(cp) => {
                if cp != cpiece {
                    return Err(Invalid);
                }
            },
            None => {
                return Err(Invalid);
            },
        }
        self.set_square(square, None);
        Ok(())
    }

    /// Sets what stands on a square, keeping bitboards and hash in step.
    #[verifier::rlimit(60)]
    #[verifier::spinoff_prover]
    fn set_square(&mut self, square: Square, value: Option<ColoredPiece>)
        ensures
            final(self)@ == old(self)@.update(square.spec_index() as int, value),
    {
        proof {
            use_type_invariant(&*self);
        }
        let i = square.index();
        let old_value = self.squares[i];
        let mut squares = self.squares;
        squares[i] = value;
        let mut occupied_by = self.occupied_by;
        let mut empty_squares = self.empty_squares;
        let mut piece_maps = self.piece_maps;
        let mut hash = self.hash;
        match old_value {
            Some(cp) => {
                let ci = cp.color().index();
                let mut ob = occupied_by[ci];
                ob.remove(square);
                occupied_by[ci] = ob;
                let pi = cp.index();
                let mut pm = piece_maps[pi];
                pm.remove(square);
                piece_maps[pi] = pm;
                hash = hash ^ piece_square(cp, square);
            },
            None => {
                empty_squares.remove(square);
            },
        }
        match value {
            Some(cp) => {
                let ci = cp.color().index();
                let mut ob = occupied_by[ci];
                ob.add(square);
                occupied_by[ci] = ob;
                let pi = cp.index();
                let mut pm = piece_maps[pi];
                pm.add(square);
                piece_maps[pi] = pm;
                hash = hash ^ piece_square(cp, square);
            },
            None => {
                empty_squares.add(square);
            },
        }
        let ghost b = self.squares@;
        let ghost b2 = squares@;
        proof {
            let k = square.spec_index() as int;
            assert(b2 == b.update(k, value));
            assert(Square::spec_from_index(k) == square);
            lemma_board_hash_update(b, k, value, 64);
            lemma_xor3(spec_board_hash(b), square_term(b, k), square_term(b2, k));
            lemma_xor3(spec_board_hash(b), 0, square_term(b2, k));
            lemma_xor3(spec_board_hash(b), square_term(b, k), 0);
            assert forall|cp: ColoredPiece|
                #![trigger piece_maps@[cp.spec_index() as int]]
                piece_maps@[cp.spec_index() as int]@ == spec_piece_set(b2, cp) by {
                lemma_piece_set_update(b, k, value, cp);
                if old_value != Some(cp) && value != Some(cp) {
                    assert(!spec_piece_set(b, cp).contains(square));
                    assert(spec_piece_set(b, cp).remove(square) =~= spec_piece_set(b, cp));
                }
            }
            assert forall|c: Color|
                #![trigger occupied_by@[c.spec_index() as int]]
                occupied_by@[c.spec_index() as int]@ == spec_color_set(b2, c) by {
                lemma_color_set_update(b, k, value, c);
                let had = old_value is Some && old_value->0.spec_color() == c;
                let now_has = value is Some && value->0.spec_color() == c;
                if !had && !now_has {
                    assert(!spec_color_set(b, c).contains(square));
                    assert(spec_color_set(b, c).remove(square) =~= spec_color_set(b, c));
                }
            }
            lemma_empty_set_update(b, k, value);
            assert(empty_squares@ == spec_empty_set(b2));
            assert(hash == spec_board_hash(b2));
        }
        *self = Board { squares, occupied_by, empty_squares, piece_maps, hash };
    }

    pub fn parser() -> BoardParser {
        BoardParser
    }

    /// Appends the board text: eight lines of eight characters, `.` for an empty square.
    pub fn write_ascii(&self, out: &mut Vec<u8>)
        ensures
            final(out)@ == old(out)@ + spec_board_text(self@),
    {
        let mut y: usize = 0;
        while y < 8
            invariant
                y <= 8,
                self@.len() == 64,
                out@ == old(out)@ + spec_board_text(self@).subrange(0, (y * 9) as int),
            decreases 8 - y,
        {
            let mut x: usize = 0;
            while x < 8
                invariant
                    x <= 8,
                    y < 8,
                    self@.len() == 64,
                    out@ == old(out)@ + spec_board_text(self@).subrange(0, (y * 9 + x) as int),
                decreases 8 - x,
            {
                let c = match self.squares[y * 8 + x] {
                    None => 46u8,
                    Some(cp) => cp.letter(),
                };
                out.push(c);
                proof {
                    assert(spec_board_text(self@)[(y * 9 + x) as int] == c);
                    assert(out@ =~= old(out)@ + spec_board_text(self@).subrange(
                        0,
                        (y * 9 + x + 1) as int,
                    ));
                }
                x += 1;
            }
            out.push(10u8);
            proof {
                assert(spec_board_text(self@)[(y * 9 + 8) as int] == 10u8);
                assert(out@ =~= old(out)@ + spec_board_text(self@).subrange(
                    0,
                    (y * 9 + 9) as int,
                ));
            }
            y += 1;
        }
        proof {
            assert(spec_board_text(self@).subrange(0, 72) =~= spec_board_text(self@));
        }
    }
}

proof fn lemma_piece_set_update(
    b: Seq<Option<ColoredPiece>>,
    k: int,
    v: Option<ColoredPiece>,
    cp: ColoredPiece,
)
    requires
        b.len() == 64,
        0 <= k < 64,
    ensures
        spec_piece_set(b.update(k, v), cp) == if v == Some(cp) {
            spec_piece_set(b, cp).insert(Square::spec_from_index(k))
        } else {
            spec_piece_set(b, cp).remove(Square::spec_from_index(k))
        },
{
    let sq = Square::spec_from_index(k);
    assert forall|s: Square|
        spec_piece_set(b.update(k, v), cp).contains(s) == (if v == Some(cp) {
            spec_piece_set(b, cp).insert(sq)
        } else {
            spec_piece_set(b, cp).remove(sq)
        }).contains(s) by {
        lemma_square_index_injective(s, sq);
    }
    assert(spec_piece_set(b.update(k, v), cp) =~= if v == Some(cp) {
        spec_piece_set(b, cp).insert(sq)
    } else {
        spec_piece_set(b, cp).remove(sq)
    });
}

proof fn lemma_color_set_update(
    b: Seq<Option<ColoredPiece>>,
    k: int,
    v: Option<ColoredPiece>,
    c: Color,
)
    requires
        b.len() == 64,
        0 <= k < 64,
    ensures
        spec_color_set(b.update(k, v), c) == if v is Some && v->0.spec_color() == c {
            spec_color_set(b, c).insert(Square::spec_from_index(k))
        } else {
            spec_color_set(b, c).remove(Square::spec_from_index(k))
        },
{
    let sq = Square::spec_from_index(k);
    let goal = if v is Some && v->0.spec_color() == c {
        spec_color_set(b, c).insert(sq)
    } else {
        spec_color_set(b, c).remove(sq)
    };
    assert forall|s: Square| spec_color_set(b.update(k, v), c).contains(s) == goal.contains(s) by {
        lemma_square_index_injective(s, sq);
    }
    assert(spec_color_set(b.update(k, v), c) =~= goal);
}

proof fn lemma_empty_set_update(b: Seq<Option<ColoredPiece>>, k: int, v: Option<ColoredPiece>)
    requires
        b.len() == 64,
        0 <= k < 64,
    ensures
        spec_empty_set(b.update(k, v)) == if v is None {
            spec_empty_set(b).insert(Square::spec_from_index(k))
        } else {
            spec_empty_set(b).remove(Square::spec_from_index(k))
        },
{
    let sq = Square::spec_from_index(k);
    let goal = if v is None {
        spec_empty_set(b).insert(sq)
    } else {
        spec_empty_set(b).remove(sq)
    };
    assert forall|s: Square| spec_empty_set(b.update(k, v)).contains(s) == goal.contains(s) by {
        lemma_square_index_injective(s, sq);
    }
    assert(spec_empty_set(b.update(k, v)) =~= goal);
}

proof fn lemma_empty_hash(b: Seq<Option<ColoredPiece>>, n: nat)
    requires
        b == spec_empty_board(),
        n <= 64,
    ensures
        board_hash_below(b, n) == 0,
    decreases n,
{
    if n > 0 {
        lemma_empty_hash(b, (n - 1) as nat);
        lemma_xor3(0, 0, 0);
    }
}

/// The character for what stands on a square.
pub open spec fn spec_square_char(v: Option<ColoredPiece>) -> u8 {
    match v {
        Some(cp) => spec_piece_letter(cp),
        None => 46u8,
    }
}

/// Position in the board text of the character for square index `i`.
pub open spec fn text_pos(i: int) -> int {
    (i / 8) * 9 + i % 8
}

/// The board text: for each row, eight characters and a line end.
pub open spec fn spec_board_text(b: Seq<Option<ColoredPiece>>) -> Seq<u8> {
    Seq::new(
        72,
        |j: int|
            if j % 9 == 8 {
                10u8
            } else {
                spec_square_char(b[(j / 9) * 8 + j % 9])
            },
    )
}

/// What a board text character stands for: `.` for nothing, else a piece letter.
pub open spec fn spec_char_square(c: u8) -> Option<Option<ColoredPiece>> {
    if c == 46 {
        Some(None)
    } else if spec_piece_from_letter(c) is Some {
        Some(spec_piece_from_letter(c))
    } else {
        None
    }
}

/// The input begins with a board text.
pub open spec fn spec_is_board_text(input: Seq<u8>) -> bool {
    &&& input.len() >= 72
    &&& forall|i: int| 0 <= i < 64 ==> (#[trigger] spec_char_square(input[text_pos(i)])) is Some
    &&& forall|y: int| 0 <= y < 8 ==> #[trigger] input[y * 9 + 8] == 10u8
}

/// The board described by a board text.
pub open spec fn spec_board_of_text(input: Seq<u8>) -> Seq<Option<ColoredPiece>> {
    Seq::new(64, |i: int| spec_char_square(input[text_pos(i)])->0)
}

/// Parses a board text.
#[derive(Debug, Clone, Copy)]
pub struct BoardParser;

impl Parser for BoardParser {
    type Output = Board;

    open spec fn spec_parse_len(&self, input: Seq<u8>) -> Option<nat> {
        if spec_is_board_text(input) {
            Some(72nat)
        } else {
            None
        }
    }

    open spec fn spec_parse_value(&self, input: Seq<u8>, value: Board) -> bool {
        value@ == spec_board_of_text(input)
    }

    fn parse<'a>(&self, input: &'a [u8]) -> (r: ParseResult<'a, Board>) {
        if input.len() < 72 {
            return Err(ParseError);
        }
        let mut y: usize = 0;
        while y < 8
            invariant
                input@.len() >= 72,
                y <= 8,
                forall|yy: int| 0 <= yy < y ==> #[trigger] input@[yy * 9 + 8] == 10u8,
            decreases 8 - y,
        {
            if input[y * 9 + 8] != 10u8 {
                return Err(ParseError);
            }
            y += 1;
        }
        let mut board = Board::empty();
        let mut i: usize = 0;
        while i < NUM_SQUARES
            invariant
                input@.len() >= 72,
                i <= 64,
                forall|yy: int| 0 <= yy < 8 ==> #[trigger] input@[yy * 9 + 8] == 10u8,
                forall|j: int|
                    0 <= j < i ==> (#[trigger] spec_char_square(input@[text_pos(j)])) is Some,
                board@ == Seq::new(
                    64,
                    |j: int|
                        if j < i {
                            spec_char_square(input@[text_pos(j)])->0
                        } else {
                            None
                        },
                ),
            decreases 64 - i,
        {
            let c = input[(i / 8) * 9 + i % 8];
            let v: Option<ColoredPiece> = if c == 46u8 {
                None
            } else {
                match ColoredPiece::from_letter(c) {
                    Some(cp) => Some(cp),
                    None => {
                        return Err(ParseError);
                    },
                }
            };
            let ghost before = board@;
            match v {
                Some(cp) => {
                    let sq = Square::from_index(i);
                    let res = board.place_piece(sq, cp);
                },
                None => {},
            }
            proof {
                assert(spec_char_square(input@[text_pos(i as int)]) == Some(v));
                assert(board@ =~= Seq::new(
                    64,
                    |j: int|
                        if j < i + 1 {
                            spec_char_square(input@[text_pos(j)])->0
                        } else {
                            None
                        },
                ));
            }
            i += 1;
        }
        let rest = vstd::slice::slice_subrange(input, 72, input.len());
        proof {
            assert(rest@ =~= input@.skip(72));
            assert(board@ =~= spec_board_of_text(input@));
        }
        Ok(ParseSuccess { value: board, remaining: rest })
    }
}

/// A board's text, whatever follows it, reads back as the board.
pub proof fn lemma_board_text_roundtrip(b: Seq<Option<ColoredPiece>>, rest: Seq<u8>)
    requires
        b.len() == 64,
    ensures
        spec_board_text(b).len() == 72,
        spec_is_board_text(spec_board_text(b) + rest),
        spec_board_of_text(spec_board_text(b) + rest) == b,
{
    let t = spec_board_text(b) + rest;
    assert forall|i: int| 0 <= i < 64 implies (#[trigger] spec_char_square(t[text_pos(i)])) == Some(b[i]) by {
        let j = text_pos(i);
        assert(0 <= j < 72 && j % 9 == i % 8 && j / 9 == i / 8);
        assert(t[j] == spec_board_text(b)[j]);
        assert((j / 9) * 8 + j % 9 == i);
        assert(spec_char_square(46u8) == Some(None::<ColoredPiece>));
    }
    assert forall|y: int| 0 <= y < 8 implies #[trigger] t[y * 9 + 8] == 10u8 by {
        assert(t[y * 9 + 8] == spec_board_text(b)[y * 9 + 8]);
        assert((y * 9 + 8) % 9 == 8);
    }
    assert(spec_board_of_text(t) =~= b);
}

} // verus!
