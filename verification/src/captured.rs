use crate::color::{Color, NUM_COLORS};
use crate::error::Invalid;
use crate::parser::{ParseError, ParseResult, ParseSuccess, Parser};
use crate::piece::{
    group_piece, spec_initial_count, spec_piece_from_letter, spec_piece_letter, ColoredPiece,
    Piece, NUM_COLORED_PIECES, NUM_PIECES,
};
use crate::zobrist::{captured, lemma_xor3, spec_captured_key};
use vstd::prelude::*;

verus! {

broadcast use group_piece;

/// Number of captured-piece slots per color: one per piece in the game except the wazirs.
pub const NUM_CAPTURED_INDEXES: usize = 32;

/// How many of a piece kind a player can hold captured: all of that kind in the game.
pub open spec fn spec_total_count(p: Piece) -> nat {
    2 * spec_initial_count(p)
}

/// The captured pieces of one player, counted by kind.
#[derive(Debug, Clone, Copy)]
pub struct CapturedOneSide {
    counts: [u8; 5],
}

impl View for CapturedOneSide {
    type V = Seq<nat>;

    closed spec fn view(&self) -> Seq<nat> {
        Seq::new(5, |i: int| self.counts@[i] as nat)
    }
}

impl CapturedOneSide {
    #[verifier::type_invariant]
    spec fn inv(self) -> bool {
        forall|p: Piece| #[trigger] self.counts@[p.spec_index() as int] <= spec_total_count(p)
    }

    pub fn new() -> (r: CapturedOneSide)
        ensures
            r@ == Seq::new(5, |i: int| 0nat),
    {
        let counts: [u8; 5] = [0u8, 0u8, 0u8, 0u8, 0u8];
        proof {
            assert(counts@ =~= seq![0u8, 0u8, 0u8, 0u8, 0u8]);
        }
        let r = CapturedOneSide { counts };
        proof {
            assert(r@ =~= Seq::new(5, |i: int| 0nat));
        }
        r
    }

    /// The number of captured pieces of a kind.
    pub fn get(&self, piece: Piece) -> (r: usize)
        ensures
            r == self@[piece.spec_index() as int],
            r <= spec_total_count(piece),
    {
        proof {
            use_type_invariant(self);
        }
        self.counts[piece.index()] as usize
    }

    /// Adds a captured piece; fails when all pieces of that kind are already held.
    pub fn add(&mut self, piece: Piece) -> (r: Result<(), Invalid>)
        ensures
            old(self)@[piece.spec_index() as int] >= spec_total_count(piece) ==> r is Err
                && final(self)@ == old(self)@,
            old(self)@[piece.spec_index() as int] < spec_total_count(piece) ==> r is Ok
                && final(self)@ == old(self)@.update(
                piece.spec_index() as int,
                old(self)@[piece.spec_index() as int] + 1,
            ),
    {
        proof {
            use_type_invariant(&*self);
        }
        let i = piece.index();
        let count = self.counts[i];
        if count as usize >= piece.total_count() {
            return Err(Invalid);
        }
        let mut counts = self.counts;
        counts[i] = count + 1;
        proof {
            assert forall|p: Piece| #[trigger] counts@[p.spec_index() as int] <= spec_total_count(
                p,
            ) by {
                if p != piece {
                    assert(counts@[p.spec_index() as int] == self.counts@[p.spec_index() as int]);
                }
            }
        }
        *self = CapturedOneSide { counts };
        proof {
            assert(final(self)@ =~= old(self)@.update(
                piece.spec_index() as int,
                old(self)@[piece.spec_index() as int] + 1,
            ));
        }
        Ok(())
    }

    /// Takes away a captured piece; fails when none of that kind is held.
    pub fn remove(&mut self, piece: Piece) -> (r: Result<(), Invalid>)
        ensures
            old(self)@[piece.spec_index() as int] == 0 ==> r is Err && final(self)@ == old(
                self,
            )@,
            old(self)@[piece.spec_index() as int] > 0 ==> r is Ok && final(self)@ == old(
                self,
            )@.update(piece.spec_index() as int, (old(self)@[piece.spec_index() as int] - 1) as nat),
    {
        proof {
            use_type_invariant(&*self);
        }
        let i = piece.index();
        let count = self.counts[i];
        if count == 0 {
            return Err(Invalid);
        }
        let mut counts = self.counts;
        counts[i] = count - 1;
        proof {
            assert forall|p: Piece| #[trigger] counts@[p.spec_index() as int] <= spec_total_count(
                p,
            ) by {
                if p != piece {
                    assert(counts@[p.spec_index() as int] == self.counts@[p.spec_index() as int]);
                }
            }
        }
        *self = CapturedOneSide { counts };
        proof {
            assert(final(self)@ =~= old(self)@.update(
                piece.spec_index() as int,
                (old(self)@[piece.spec_index() as int] - 1) as nat,
            ));
        }
        Ok(())
    }
}

/// XOR of the keys of the first `n` captured pieces of a colored piece kind.
pub open spec fn run_hash(cp: ColoredPiece, n: nat) -> u64
    decreases n,
{
    if n == 0 {
        0u64
    } else {
        run_hash(cp, (n - 1) as nat) ^ spec_captured_key(cp, (n - 1) as nat)
    }
}

/// Hash of the counts of the colored pieces with index below `j`.
pub open spec fn captured_hash_below(counts: Seq<nat>, j: nat) -> u64
    decreases j,
{
    if j == 0 {
        0u64
    } else {
        captured_hash_below(counts, (j - 1) as nat) ^ run_hash(
            ColoredPiece::spec_from_index(j - 1),
            counts[j - 1],
        )
    }
}

/// Hash of captured pieces given their counts, indexed by colored piece.
pub open spec fn spec_captured_hash(counts: Seq<nat>) -> u64 {
    captured_hash_below(counts, 10)
}

/// Raising the count of one colored piece by one XORs in one more key.
pub proof fn lemma_captured_hash_inc(counts: Seq<nat>, k: int, j: nat)
    requires
        counts.len() == 10,
        0 <= k < 10,
        j <= 10,
    ensures
        captured_hash_below(counts.update(k, counts[k] + 1), j) == if k < j {
            captured_hash_below(counts, j) ^ spec_captured_key(
                ColoredPiece::spec_from_index(k),
                counts[k],
            )
        } else {
            captured_hash_below(counts, j)
        },
    decreases j,
{
    let c2 = counts.update(k, counts[k] + 1);
    if j > 0 {
        lemma_captured_hash_inc(counts, k, (j - 1) as nat);
        let h = captured_hash_below(counts, (j - 1) as nat);
        let key = spec_captured_key(ColoredPiece::spec_from_index(k), counts[k]);
        let r = run_hash(ColoredPiece::spec_from_index(j - 1), counts[j - 1]);
        if k == j - 1 {
            assert(c2[j - 1] == counts[k] + 1);
            assert(run_hash(ColoredPiece::spec_from_index(j - 1), c2[j - 1]) == r ^ key);
            lemma_xor3(h, r, key);
        } else if k < j - 1 {
            assert(c2[j - 1] == counts[j - 1]);
            lemma_xor3(h, key, r);
        } else {
            assert(c2[j - 1] == counts[j - 1]);
        }
    }
}

/// The captured pieces of both players, with a hash kept in step.
#[derive(Debug, Clone, Copy)]
pub struct Captured {
    sides: [CapturedOneSide; 2],
    hash: u64,
}

/// The counts of an empty set of captured pieces.
pub open spec fn spec_no_captures() -> Seq<nat> {
    Seq::new(10, |i: int| 0nat)
}

impl View for Captured {
    /// Count for each colored piece, by colored piece index.
    type V = Seq<nat>;

    closed spec fn view(&self) -> Seq<nat> {
        Seq::new(10, |i: int| self.sides@[i % 2]@[i / 2])
    }
}

impl Captured {
    #[verifier::type_invariant]
    spec fn inv(self) -> bool {
        self.hash == spec_captured_hash(self@)
    }

    /// There is a count for each of the ten colored pieces.
    pub proof fn lemma_len(self)
        ensures
            self@.len() == 10,
    {
    }

    /// Each count is within the number of pieces of its kind.
    pub fn count_bound(&self, cpiece: ColoredPiece) -> (r: usize)
        ensures
            r == self@[cpiece.spec_index() as int],
            r <= spec_total_count(cpiece.spec_piece()),
    {
        self.get(cpiece)
    }

    pub fn new() -> (r: Captured)
        ensures
            r@ == spec_no_captures(),
    {
        let side = CapturedOneSide::new();
        let sides = [side, side];
        proof {
            assert(sides@[0] == side && sides@[1] == side);
            assert(Seq::new(10, |i: int| sides@[i % 2]@[i / 2]) =~= spec_no_captures());
            lemma_no_captures_hash(10);
        }
        Captured { sides, hash: 0 }
    }

    /// The number of captured pieces of a colored kind.
    pub fn get(&self, cpiece: ColoredPiece) -> (r: usize)
        ensures
            r == self@[cpiece.spec_index() as int],
            r <= spec_total_count(cpiece.spec_piece()),
    {
        self.sides[cpiece.color().index()].get(cpiece.piece())
    }

    pub fn hash(&self) -> (r: u64)
        ensures
            r == spec_captured_hash(self@),
    {
        proof {
            use_type_invariant(self);
        }
        self.hash
    }

    /// Adds a captured piece; fails when all pieces of that kind are already held.
    pub fn add(&mut self, cpiece: ColoredPiece) -> (r: Result<(), Invalid>)
        ensures
            old(self)@[cpiece.spec_index() as int] >= spec_total_count(cpiece.spec_piece()) ==> r
                is Err && final(self)@ == old(self)@,
            old(self)@[cpiece.spec_index() as int] < spec_total_count(cpiece.spec_piece()) ==> r
                is Ok && final(self)@ == old(self)@.update(
                cpiece.spec_index() as int,
                old(self)@[cpiece.spec_index() as int] + 1,
            ),
    {
        proof {
            use_type_invariant(&*self);
        }
        let ci = cpiece.color().index();
        let piece = cpiece.piece();
        let mut side = self.sides[ci];
        let before = side.get(piece);
        match side.add(piece) {
            Ok(()) => {},
            Err(e) => {
                return Err(e);
            },
        }
        let mut sides = self.sides;
        sides[ci] = side;
        let hash = self.hash ^ captured(cpiece, before);
        let ghost old_view = self@;
        let ghost new_view = Seq::new(10, |i: int| sides@[i % 2]@[i / 2]);
        proof {
            let k = cpiece.spec_index() as int;
            assert(new_view =~= old_view.update(k, old_view[k] + 1));
            lemma_captured_hash_inc(old_view, k, 10);
        }
        *self = Captured { sides, hash };
        Ok(())
    }

    /// Takes away a captured piece; fails when none of that kind is held.
    pub fn remove(&mut self, cpiece: ColoredPiece) -> (r: Result<(), Invalid>)
        ensures
            old(self)@[cpiece.spec_index() as int] == 0 ==> r is Err && final(self)@ == old(
                self,
            )@,
            old(self)@[cpiece.spec_index() as int] > 0 ==> r is Ok && final(self)@ == old(
                self,
            )@.update(
                cpiece.spec_index() as int,
                (old(self)@[cpiece.spec_index() as int] - 1) as nat,
            ),
    {
        proof {
            use_type_invariant(&*self);
        }
        let ci = cpiece.color().index();
        let piece = cpiece.piece();
        let mut side = self.sides[ci];
        match side.remove(piece) {
            Ok(()) => {},
            Err(e) => {
                return Err(e);
            },
        }
        let after = side.get(piece);
        let mut sides = self.sides;
        sides[ci] = side;
        let hash = self.hash ^ captured(cpiece, after);
        let ghost old_view = self@;
        let ghost new_view = Seq::new(10, |i: int| sides@[i % 2]@[i / 2]);
        proof {
            let k = cpiece.spec_index() as int;
            assert(new_view =~= old_view.update(k, (old_view[k] - 1) as nat));
            assert(old_view =~= new_view.update(k, new_view[k] + 1));
            lemma_captured_hash_inc(new_view, k, 10);
            lemma_xor3(spec_captured_hash(new_view), spec_captured_key(cpiece, after as nat), 0);
        }
        *self = Captured { sides, hash };
        Ok(())
    }

    pub fn parser() -> CapturedParser {
        CapturedParser
    }

    /// Appends the captured pieces as letters: red's by kind, then blue's by kind.
    pub fn write_ascii(&self, out: &mut Vec<u8>)
        ensures
            final(out)@ == old(out)@ + spec_captured_text(self@),
    {
        let ghost counts = self@;
        let mut k: usize = 0;
        while k < NUM_COLORED_PIECES
            invariant
                k <= 10,
                counts == self@,
                counts.len() == 10,
                out@ == old(out)@ + captured_text_below(counts, k as nat),
            decreases 10 - k,
        {
            let color = Color::from_index(k / 5);
            let piece = Piece::from_index(k % 5);
            let cp = piece.with_color(color);
            let n = self.get(cp);
            let letter = cp.letter();
            let mut j: usize = 0;
            while j < n
                invariant
                    j <= n,
                    out@ == old(out)@ + captured_text_below(counts, k as nat) + Seq::new(
                        j as nat,
                        |t: int| letter,
                    ),
                decreases n - j,
            {
                out.push(letter);
                proof {
                    assert(Seq::new(j as nat, |t: int| letter).push(letter) =~= Seq::new(
                        (j + 1) as nat,
                        |t: int| letter,
                    ));
                }
                j += 1;
            }
            proof {
                assert(text_order_piece(k as int) == cp);
                assert(out@ =~= old(out)@ + captured_text_below(counts, (k + 1) as nat));
            }
            k += 1;
        }
    }
}

proof fn lemma_no_captures_hash(j: nat)
    requires
        j <= 10,
    ensures
        captured_hash_below(spec_no_captures(), j) == 0,
    decreases j,
{
    if j > 0 {
        lemma_no_captures_hash((j - 1) as nat);
        lemma_xor3(0, 0, 0);
    }
}

/// The colored piece written `k`-th in the captured text order: red kinds, then blue kinds.
pub open spec fn text_order_piece(k: int) -> ColoredPiece {
    ColoredPiece::spec_new(Piece::spec_from_index(k % 5), Color::spec_from_index(k / 5))
}

/// The captured text for the first `k` colored pieces in text order.
pub open spec fn captured_text_below(counts: Seq<nat>, k: nat) -> Seq<u8>
    decreases k,
{
    if k == 0 {
        Seq::empty()
    } else {
        let cp = text_order_piece(k - 1);
        captured_text_below(counts, (k - 1) as nat) + Seq::new(
            counts[cp.spec_index() as int],
            |t: int| spec_piece_letter(cp),
        )
    }
}

/// The captured pieces as text: each letter repeated by its count, red kinds first.
pub open spec fn spec_captured_text(counts: Seq<nat>) -> Seq<u8> {
    captured_text_below(counts, 10)
}

/// Number of leading piece letters of `input`, at most `max`.
pub open spec fn leading_letters(input: Seq<u8>, max: nat) -> nat
    decreases max,
{
    if max == 0 || input.len() == 0 || spec_piece_from_letter(input[0]) is None {
        0
    } else {
        1 + leading_letters(input.drop_first(), (max - 1) as nat)
    }
}

/// How many times `cp` occurs among the first `n` letters.
pub open spec fn letter_count(input: Seq<u8>, n: nat, cp: ColoredPiece) -> nat
    decreases n,
{
    if n == 0 {
        0
    } else {
        letter_count(input, (n - 1) as nat, cp) + if spec_piece_from_letter(input[n - 1]) == Some(
            cp,
        ) {
            1nat
        } else {
            0nat
        }
    }
}

/// The input begins with piece letters (as many as there are, up to 32) whose counts
/// fit the pieces in the game.
pub open spec fn spec_captured_text_ok(input: Seq<u8>) -> bool {
    let n = leading_letters(input, 32);
    forall|cp: ColoredPiece| #[trigger] letter_count(input, n, cp) <= spec_total_count(cp.spec_piece())
}

/// The counts described by the leading piece letters.
pub open spec fn spec_captured_of_text(input: Seq<u8>) -> Seq<nat> {
    let n = leading_letters(input, 32);
    Seq::new(10, |i: int| letter_count(input, n, ColoredPiece::spec_from_index(i)))
}

proof fn lemma_leading_letters(input: Seq<u8>, max: nat, i: int)
    requires
        0 <= i < leading_letters(input, max),
    ensures
        i < input.len(),
        spec_piece_from_letter(input[i]) is Some,
    decreases max,
{
    if i > 0 {
        lemma_leading_letters(input.drop_first(), (max - 1) as nat, i - 1);
    }
}

proof fn lemma_leading_letters_len(input: Seq<u8>, max: nat)
    ensures
        leading_letters(input, max) <= input.len(),
        leading_letters(input, max) <= max,
        leading_letters(input, max) < max && leading_letters(input, max) < input.len()
            ==> spec_piece_from_letter(input[leading_letters(input, max) as int]) is None,
    decreases max,
{
    if max > 0 && input.len() > 0 && spec_piece_from_letter(input[0]) is Some {
        lemma_leading_letters_len(input.drop_first(), (max - 1) as nat);
    }
}

/// Parses captured pieces: a run of piece letters.
#[derive(Debug, Clone, Copy)]
pub struct CapturedParser;

impl Parser for CapturedParser {
    type Output = Captured;

    open spec fn spec_parse_len(&self, input: Seq<u8>) -> Option<nat> {
        if spec_captured_text_ok(input) {
            Some(leading_letters(input, 32))
        } else {
            None
        }
    }

    open spec fn spec_parse_value(&self, input: Seq<u8>, value: Captured) -> bool {
        value@ == spec_captured_of_text(input)
    }

    fn parse<'a>(&self, input: &'a [u8]) -> (r: ParseResult<'a, Captured>) {
        let ghost n = leading_letters(input@, 32);
        proof {
            lemma_leading_letters_len(input@, 32);
        }
        let mut captured = Captured::new();
        let mut i: usize = 0;
        while i < input.len() && i < NUM_CAPTURED_INDEXES
            invariant
                i <= n,
                n == leading_letters(input@, 32),
                n <= input@.len(),
                n <= 32,
                forall|cp: ColoredPiece|
                    #[trigger] letter_count(input@, i as nat, cp) <= spec_total_count(
                        cp.spec_piece(),
                    ),
                captured@ == Seq::new(
                    10,
                    |k: int| letter_count(input@, i as nat, ColoredPiece::spec_from_index(k)),
                ),
                n < 32 && n < input@.len() ==> spec_piece_from_letter(input@[n as int]) is None,
            ensures
                i == n,
                forall|cp: ColoredPiece|
                    #[trigger] letter_count(input@, i as nat, cp) <= spec_total_count(
                        cp.spec_piece(),
                    ),
                captured@ == Seq::new(
                    10,
                    |k: int| letter_count(input@, i as nat, ColoredPiece::spec_from_index(k)),
                ),
            decreases 32 - i,
        {
            let cp = match ColoredPiece::from_letter(input[i]) {
                Some(cp) => cp,
                None => {
                    proof {
                        if i < n {
                            lemma_leading_letters(input@, 32, i as int);
                        }
                    }
                    break;
                },
            };
            proof {
                if i == n {
                    assert(spec_piece_from_letter(input@[i as int]) is None);
                }
            }
            let ghost before = captured@;
            match captured.add(cp) {
                Ok(()) => {},
                Err(_) => {
                    proof {
                        lemma_leading_letters(input@, 32, i as int);
                        assert(letter_count(input@, (i + 1) as nat, cp) > spec_total_count(
                            cp.spec_piece(),
                        ));
                        lemma_letter_count_mono(input@, (i + 1) as nat, n, cp);
                    }
                    return Err(ParseError);
                },
            }
            proof {
                assert(captured@ =~= Seq::new(
                    10,
                    |k: int|
                        letter_count(input@, (i + 1) as nat, ColoredPiece::spec_from_index(k)),
                ));
                assert forall|c: ColoredPiece|
                    #[trigger] letter_count(input@, (i + 1) as nat, c) <= spec_total_count(
                        c.spec_piece(),
                    ) by {
                    if c != cp {
                        assert(letter_count(input@, (i + 1) as nat, c) == letter_count(
                            input@,
                            i as nat,
                            c,
                        ));
                    } else {
                        assert(letter_count(input@, (i + 1) as nat, c) == captured@[c.spec_index() as int]);
                    }
                }
            }
            i += 1;
        }
        let rest = vstd::slice::slice_subrange(input, i, input.len());
        proof {
            assert(rest@ =~= input@.skip(i as int));
        }
        Ok(ParseSuccess { value: captured, remaining: rest })
    }
}

proof fn lemma_letter_count_mono(input: Seq<u8>, a: nat, b: nat, cp: ColoredPiece)
    requires
        a <= b,
    ensures
        letter_count(input, a, cp) <= letter_count(input, b, cp),
    decreases b,
{
    if a < b {
        lemma_letter_count_mono(input, a, (b - 1) as nat, cp);
    }
}

/// Offset of a piece kind among the captured-piece slots.
pub open spec fn spec_captured_offset(p: Piece) -> nat {
    match p {
        Piece::Alfil => 0,
        Piece::Dabbaba => 16,
        Piece::Ferz => 24,
        Piece::Knight => 28,
        Piece::Wazir => 30,
    }
}

/// The slot of the `index`-th captured piece of a kind.
pub fn captured_index(piece: Piece, index: usize) -> (r: usize)
    requires
        index + 30 <= usize::MAX,
    ensures
        r == spec_captured_offset(piece) + index,
        index < spec_total_count(piece) ==> r < NUM_CAPTURED_INDEXES,
{
    let offset: usize = match piece {
        Piece::Alfil => 0,
        Piece::Dabbaba => 16,
        Piece::Ferz => 24,
        Piece::Knight => 28,
        Piece::Wazir => 30,
    };
    offset + index
}

/// Where `cp` comes in the captured text order.
pub open spec fn text_order_index(cp: ColoredPiece) -> int {
    (cp.spec_color().spec_index() * 5 + cp.spec_piece().spec_index()) as int
}

proof fn lemma_text_order(j: int, cp: ColoredPiece)
    requires
        0 <= j < 10,
    ensures
        text_order_piece(j) == cp <==> j == text_order_index(cp),
{
    let p = Piece::spec_from_index(j % 5);
    let c = Color::spec_from_index(j / 5);
    assert(p.spec_index() == j % 5);
    assert(c.spec_index() == j / 5);
    assert(j == (j / 5) * 5 + j % 5);
    if text_order_piece(j) == cp {
        assert(cp.spec_piece() == p && cp.spec_color() == c);
    }
    if j == text_order_index(cp) {
        assert(j % 5 == cp.spec_piece().spec_index());
        assert(j / 5 == cp.spec_color().spec_index());
        assert(p == cp.spec_piece());
        assert(c == cp.spec_color());
    }
}

proof fn lemma_letter_count_prefix(a: Seq<u8>, rest: Seq<u8>, n: nat, cp: ColoredPiece)
    requires
        n <= a.len(),
    ensures
        letter_count(a + rest, n, cp) == letter_count(a, n, cp),
    decreases n,
{
    if n > 0 {
        lemma_letter_count_prefix(a, rest, (n - 1) as nat, cp);
        assert((a + rest)[n - 1] == a[n - 1]);
    }
}

proof fn lemma_letter_count_concat(a: Seq<u8>, b: Seq<u8>, k: nat, cp: ColoredPiece)
    requires
        k <= b.len(),
    ensures
        letter_count(a + b, a.len() + k, cp) == letter_count(a, a.len(), cp) + letter_count(b, k, cp),
    decreases k,
{
    if k == 0 {
        lemma_letter_count_prefix(a, b, a.len(), cp);
    } else {
        lemma_letter_count_concat(a, b, (k - 1) as nat, cp);
        assert((a + b)[a.len() + k - 1] == b[k - 1]);
    }
}

proof fn lemma_letter_count_run(x: ColoredPiece, l: nat, k: nat, cp: ColoredPiece)
    requires
        k <= l,
    ensures
        letter_count(Seq::new(l, |t: int| spec_piece_letter(x)), k, cp) == if x == cp {
            k
        } else {
            0
        },
    decreases k,
{
    if k > 0 {
        lemma_letter_count_run(x, l, (k - 1) as nat, cp);
    }
}

/// The captured text for the first `k` kinds in text order: its letters, and how many of
/// each.
proof fn lemma_captured_text_below(c: Seq<nat>, k: nat)
    requires
        c.len() == 10,
        k <= 10,
    ensures
        forall|i: int| 0 <= i < captured_text_below(c, k).len() ==> (#[trigger] spec_piece_from_letter(
            captured_text_below(c, k)[i],
        )) is Some,
        forall|cp: ColoredPiece|
            #[trigger] letter_count(captured_text_below(c, k), captured_text_below(c, k).len(), cp) == if text_order_index(
                cp,
            ) < k {
                c[cp.spec_index() as int]
            } else {
                0
            },
    decreases k,
{
    if k > 0 {
        let k1 = (k - 1) as nat;
        lemma_captured_text_below(c, k1);
        let x = text_order_piece(k1 as int);
        let a = captured_text_below(c, k1);
        let run = Seq::new(c[x.spec_index() as int], |t: int| spec_piece_letter(x));
        let t = captured_text_below(c, k);
        assert(t == a + run);
        assert forall|i: int| 0 <= i < t.len() implies (#[trigger] spec_piece_from_letter(t[i])) is Some by {
            if i < a.len() {
                assert(t[i] == a[i]);
            } else {
                assert(t[i] == run[i - a.len()]);
            }
        }
        assert forall|cp: ColoredPiece|
            #[trigger] letter_count(t, t.len(), cp) == if text_order_index(cp) < k {
                c[cp.spec_index() as int]
            } else {
                0
            } by {
            lemma_letter_count_concat(a, run, run.len(), cp);
            lemma_letter_count_run(x, run.len(), run.len(), cp);
            lemma_text_order(k1 as int, cp);
        }
    }
}

proof fn lemma_leading_letters_exact(input: Seq<u8>, max: nat, n: nat)
    requires
        n <= max,
        n <= input.len(),
        forall|i: int| 0 <= i < n ==> (#[trigger] spec_piece_from_letter(input[i])) is Some,
        n == input.len() || spec_piece_from_letter(input[n as int]) is None,
    ensures
        leading_letters(input, max) == n,
    decreases n,
{
    if n > 0 {
        let d = input.drop_first();
        assert forall|i: int| 0 <= i < n - 1 implies (#[trigger] spec_piece_from_letter(d[i])) is Some by {
            assert(d[i] == input[i + 1]);
            assert(spec_piece_from_letter(input[i + 1]) is Some);
        }
        if (n - 1) < d.len() {
            assert(d[n - 1] == input[n as int]);
        }
        assert(spec_piece_from_letter(input[0]) is Some);
        lemma_leading_letters_exact(d, (max - 1) as nat, (n - 1) as nat);
    } else {
        if max > 0 && input.len() > 0 {
            assert(spec_piece_from_letter(input[0]) is None);
        }
    }
}

/// The captured text, when it has at most 32 letters and what follows is no letter, reads
/// back as the counts.
pub proof fn lemma_captured_text_roundtrip(c: Seq<nat>, rest: Seq<u8>)
    requires
        c.len() == 10,
        spec_captured_text(c).len() <= 32,
        rest.len() == 0 || spec_piece_from_letter(rest[0]) is None,
    ensures
        leading_letters(spec_captured_text(c) + rest, 32) == spec_captured_text(c).len(),
        spec_captured_of_text(spec_captured_text(c) + rest) == c,
        forall|cp: ColoredPiece|
            #[trigger] letter_count(spec_captured_text(c) + rest, spec_captured_text(c).len(), cp) == c[cp.spec_index() as int],
{
    let t = spec_captured_text(c);
    let input = t + rest;
    lemma_captured_text_below(c, 10);
    assert forall|i: int| 0 <= i < t.len() implies (#[trigger] spec_piece_from_letter(input[i])) is Some by {
        assert(input[i] == t[i]);
        assert(spec_piece_from_letter(t[i]) is Some);
    }
    if t.len() < input.len() {
        assert(input[t.len() as int] == rest[0]);
    }
    lemma_leading_letters_exact(input, 32, t.len());
    assert forall|cp: ColoredPiece|
        #[trigger] letter_count(input, t.len(), cp) == c[cp.spec_index() as int] by {
        lemma_letter_count_prefix(t, rest, t.len(), cp);
        assert(letter_count(t, t.len(), cp) == if text_order_index(cp) < 10 {
            c[cp.spec_index() as int]
        } else {
            0
        });
    }
    assert forall|i: int| 0 <= i < 10 implies #[trigger] spec_captured_of_text(input)[i] == c[i] by {
        let cp = ColoredPiece::spec_from_index(i);
        assert(cp.spec_index() == i);
        assert(letter_count(input, t.len(), cp) == c[cp.spec_index() as int]);
    }
    assert(spec_captured_of_text(input) =~= c);
}

} // verus!
