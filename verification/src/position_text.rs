use crate::board::{
    lemma_board_text_roundtrip, spec_board_of_text, spec_board_text, spec_count_piece, spec_is_board_text,
    BoardParser,
};
use crate::captured::{
    captured_text_below, lemma_captured_text_roundtrip, leading_letters, letter_count, spec_captured_of_text,
    spec_captured_text, spec_captured_text_ok, spec_total_count, text_order_piece, CapturedParser,
};
use crate::color::Color;
use crate::piece::{group_piece, spec_initial_count, spec_piece_from_letter, ColoredPiece, Piece};
use crate::parser::{
    bytes_start_with, decimal_value, digits_len, lemma_digits_len, starts_with, ParseError, ParseResult,
    ParseSuccess, Parser, U32Parser,
};
use crate::position::{spec_total_in_game, spec_valid, Outcome, Position, PositionView, Stage};
use crate::score::{lemma_digits_text, spec_digits, write_decimal};
use vstd::prelude::*;

verus! {

pub open spec fn red_win_word() -> Seq<u8> {
    seq![114u8, 101u8, 100u8, 95u8, 119u8, 105u8, 110u8]
}

pub open spec fn draw_word() -> Seq<u8> {
    seq![100u8, 114u8, 97u8, 119u8]
}

pub open spec fn blue_win_word() -> Seq<u8> {
    seq![98u8, 108u8, 117u8, 101u8, 95u8, 119u8, 105u8, 110u8]
}

pub open spec fn setup_word() -> Seq<u8> {
    seq![115u8, 101u8, 116u8, 117u8, 112u8]
}

pub open spec fn regular_word() -> Seq<u8> {
    seq![114u8, 101u8, 103u8, 117u8, 108u8, 97u8, 114u8]
}

pub open spec fn end_word() -> Seq<u8> {
    seq![101u8, 110u8, 100u8, 32u8]
}

/// The text of an outcome.
pub open spec fn spec_outcome_text(o: Outcome) -> Seq<u8> {
    match o {
        Outcome::RedWin => red_win_word(),
        Outcome::Draw => draw_word(),
        Outcome::BlueWin => blue_win_word(),
    }
}

/// The outcome at the start of the input and the length of its text.
pub open spec fn spec_outcome_read(input: Seq<u8>) -> Option<(Outcome, nat)> {
    if starts_with(input, red_win_word()) {
        Some((Outcome::RedWin, 7nat))
    } else if starts_with(input, draw_word()) {
        Some((Outcome::Draw, 4nat))
    } else if starts_with(input, blue_win_word()) {
        Some((Outcome::BlueWin, 8nat))
    } else {
        None
    }
}

/// The text of a stage.
pub open spec fn spec_stage_text(s: Stage) -> Seq<u8> {
    match s {
        Stage::Setup => setup_word(),
        Stage::Regular => regular_word(),
        Stage::End(o) => end_word() + spec_outcome_text(o),
    }
}

/// The stage at the start of the input and the length of its text.
pub open spec fn spec_stage_read(input: Seq<u8>) -> Option<(Stage, nat)> {
    if starts_with(input, setup_word()) {
        Some((Stage::Setup, 5nat))
    } else if starts_with(input, regular_word()) {
        Some((Stage::Regular, 7nat))
    } else if starts_with(input, end_word()) {
        match spec_outcome_read(input.skip(4)) {
            Some((o, n)) => Some((Stage::End(o), 4 + n)),
            None => None,
        }
    } else {
        None
    }
}

/// The text of a position: stage, move number, captured pieces and board, each on a line
/// (the board's own lines last).
pub open spec fn spec_position_text(s: PositionView) -> Seq<u8> {
    spec_stage_text(s.0) + seq![10u8] + spec_digits(s.1) + seq![10u8] + spec_captured_text(s.3) + seq![
        10u8,
    ] + spec_board_text(s.2)
}

/// The position written at the start of the input and the length of its text, when the
/// text is well formed and describes a valid position.
pub open spec fn spec_position_read(input: Seq<u8>) -> Option<(PositionView, nat)> {
    match spec_stage_read(input) {
        None => None,
        Some((stage, a)) => {
            let s1 = input.skip(a + 1int);
            let d = digits_len(s1);
            let n = decimal_value(s1.take(d as int));
            let s2 = s1.skip(d + 1int);
            let c = leading_letters(s2, 32);
            let s3 = s2.skip(c + 1int);
            if a + 1 <= input.len() && input[a as int] == 10 && d >= 1 && n <= u32::MAX && d + 1 <= s1.len()
                && s1[d as int] == 10 && spec_captured_text_ok(s2) && c + 1 <= s2.len() && s2[c as int] == 10
                && spec_is_board_text(s3) && spec_valid(
                stage,
                n,
                spec_board_of_text(s3),
                spec_captured_of_text(s2),
            ) {
                Some(
                    (
                        (stage, n, spec_board_of_text(s3), spec_captured_of_text(s2)),
                        a + 1 + d + 1 + c + 1 + 72,
                    ),
                )
            } else {
                None
            }
        },
    }
}

/// Parses an outcome.
#[derive(Debug, Clone, Copy)]
pub struct OutcomeParser;

impl Parser for OutcomeParser {
    type Output = Outcome;

    open spec fn spec_parse_len(&self, input: Seq<u8>) -> Option<nat> {
        match spec_outcome_read(input) {
            Some((o, n)) => Some(n),
            None => None,
        }
    }

    open spec fn spec_parse_value(&self, input: Seq<u8>, value: Outcome) -> bool {
        spec_outcome_read(input) matches Some((o, n)) && value == o
    }

    fn parse<'a>(&self, input: &'a [u8]) -> (r: ParseResult<'a, Outcome>) {
        let (o, n): (Outcome, usize) = if bytes_start_with(input, &[114u8, 101, 100, 95, 119, 105, 110]) {
            (Outcome::RedWin, 7)
        } else if bytes_start_with(input, &[100u8, 114, 97, 119]) {
            (Outcome::Draw, 4)
        } else if bytes_start_with(input, &[98u8, 108, 117, 101, 95, 119, 105, 110]) {
            (Outcome::BlueWin, 8)
        } else {
            return Err(ParseError);
        };
        let rest = vstd::slice::slice_subrange(input, n, input.len());
        assert(rest@ =~= input@.skip(n as int));
        Ok(ParseSuccess { value: o, remaining: rest })
    }
}

/// Parses a stage.
#[derive(Debug, Clone, Copy)]
pub struct StageParser;

impl Parser for StageParser {
    type Output = Stage;

    open spec fn spec_parse_len(&self, input: Seq<u8>) -> Option<nat> {
        match spec_stage_read(input) {
            Some((s, n)) => Some(n),
            None => None,
        }
    }

    open spec fn spec_parse_value(&self, input: Seq<u8>, value: Stage) -> bool {
        spec_stage_read(input) matches Some((s, n)) && value == s
    }

    fn parse<'a>(&self, input: &'a [u8]) -> (r: ParseResult<'a, Stage>) {
        if bytes_start_with(input, &[115u8, 101, 116, 117, 112]) {
            let rest = vstd::slice::slice_subrange(input, 5, input.len());
            assert(rest@ =~= input@.skip(5));
            Ok(ParseSuccess { value: Stage::Setup, remaining: rest })
        } else if bytes_start_with(input, &[114u8, 101, 103, 117, 108, 97, 114]) {
            let rest = vstd::slice::slice_subrange(input, 7, input.len());
            assert(rest@ =~= input@.skip(7));
            Ok(ParseSuccess { value: Stage::Regular, remaining: rest })
        } else if bytes_start_with(input, &[101u8, 110, 100, 32]) {
            let after = vstd::slice::slice_subrange(input, 4, input.len());
            assert(after@ =~= input@.skip(4));
            match OutcomeParser.parse(after) {
                Ok(s) => {
                    proof {
                        let (o, n) = spec_outcome_read(input@.skip(4))->0;
                        assert(s.remaining@ =~= input@.skip(4 + n as int));
                    }
                    Ok(ParseSuccess { value: Stage::End(s.value), remaining: s.remaining })
                },
                Err(e) => Err(e),
            }
        } else {
            Err(ParseError)
        }
    }
}

/// Parses a position and checks that it is valid.
#[derive(Debug, Clone, Copy)]
pub struct PositionParser;

impl Parser for PositionParser {
    type Output = Position;

    open spec fn spec_parse_len(&self, input: Seq<u8>) -> Option<nat> {
        match spec_position_read(input) {
            Some((p, n)) => Some(n),
            None => None,
        }
    }

    open spec fn spec_parse_value(&self, input: Seq<u8>, value: Position) -> bool {
        spec_position_read(input) matches Some((p, n)) && value@ == p
    }

    fn parse<'a>(&self, input: &'a [u8]) -> (r: ParseResult<'a, Position>) {
        let s0 = match StageParser.parse(input) {
            Ok(s) => s,
            Err(e) => {
                return Err(e);
            },
        };
        let ghost a = match spec_stage_read(input@) {
            Some((st, k)) => k,
            None => 0,
        };
        let rest = match expect_line_end(s0.remaining) {
            Some(r) => r,
            None => {
                return Err(ParseError);
            },
        };
        let ghost s1 = input@.skip(a + 1int);
        assert(rest@ =~= s1);
        let n = match U32Parser.parse(rest) {
            Ok(s) => s,
            Err(e) => {
                return Err(e);
            },
        };
        let ghost d = digits_len(s1);
        let rest2 = match expect_line_end(n.remaining) {
            Some(r) => r,
            None => {
                return Err(ParseError);
            },
        };
        let ghost s2 = s1.skip(d + 1int);
        assert(rest2@ =~= s2);
        let c = match CapturedParser.parse(rest2) {
            Ok(s) => s,
            Err(e) => {
                return Err(e);
            },
        };
        let ghost cl = leading_letters(s2, 32);
        let rest3 = match expect_line_end(c.remaining) {
            Some(r) => r,
            None => {
                return Err(ParseError);
            },
        };
        let ghost s3 = s2.skip(cl + 1int);
        assert(rest3@ =~= s3);
        let b = match BoardParser.parse(rest3) {
            Ok(s) => s,
            Err(e) => {
                return Err(e);
            },
        };
        assert(b.remaining@ =~= input@.skip(a + 1 + d + 1 + cl + 1 + 72int));
        match Position::from_parts(s0.value, n.value as usize, b.value, c.value) {
            Ok(p) => Ok(ParseSuccess { value: p, remaining: b.remaining }),
            Err(_) => Err(ParseError),
        }
    }
}

/// The input after a line end at its start, if there is one.
fn expect_line_end<'a>(input: &'a [u8]) -> (r: Option<&'a [u8]>)
    ensures
        input@.len() >= 1 && input@[0] == 10 ==> (r matches Some(rest) && rest@ == input@.skip(1)),
        !(input@.len() >= 1 && input@[0] == 10) ==> r is None,
{
    if input.len() >= 1 && input[0] == 10 {
        let rest = vstd::slice::slice_subrange(input, 1, input.len());
        assert(rest@ =~= input@.skip(1));
        Some(rest)
    } else {
        None
    }
}

fn push_bytes(out: &mut Vec<u8>, bytes: &[u8])
    ensures
        final(out)@ == old(out)@ + bytes@,
{
    let mut i: usize = 0;
    while i < bytes.len()
        invariant
            i <= bytes@.len(),
            out@ == old(out)@ + bytes@.subrange(0, i as int),
        decreases bytes@.len() - i,
    {
        out.push(bytes[i]);
        proof {
            assert(out@ =~= old(out)@ + bytes@.subrange(0, i + 1));
        }
        i = i + 1;
    }
    assert(bytes@.subrange(0, bytes@.len() as int) =~= bytes@);
}

impl Outcome {
    pub fn parser() -> OutcomeParser {
        OutcomeParser
    }

    /// Appends the text of the outcome.
    pub fn write_ascii(&self, out: &mut Vec<u8>)
        ensures
            final(out)@ == old(out)@ + spec_outcome_text(*self),
    {
        match self {
            Outcome::RedWin => push_bytes(out, &[114u8, 101, 100, 95, 119, 105, 110]),
            Outcome::Draw => push_bytes(out, &[100u8, 114, 97, 119]),
            Outcome::BlueWin => push_bytes(out, &[98u8, 108, 117, 101, 95, 119, 105, 110]),
        }
    }
}

impl Stage {
    pub fn parser() -> StageParser {
        StageParser
    }

    /// Appends the text of the stage.
    pub fn write_ascii(&self, out: &mut Vec<u8>)
        ensures
            final(out)@ == old(out)@ + spec_stage_text(*self),
    {
        match self {
            Stage::Setup => push_bytes(out, &[115u8, 101, 116, 117, 112]),
            Stage::Regular => push_bytes(out, &[114u8, 101, 103, 117, 108, 97, 114]),
            Stage::End(o) => {
                push_bytes(out, &[101u8, 110, 100, 32]);
                o.write_ascii(out);
                assert(out@ =~= old(out)@ + spec_stage_text(*self));
            },
        }
    }
}

impl Position {
    pub fn parser() -> PositionParser {
        PositionParser
    }

    /// Appends the text of the position.
    pub fn write_ascii(&self, out: &mut Vec<u8>)
        ensures
            final(out)@ == old(out)@ + spec_position_text(self@),
    {
        self.stage().write_ascii(out);
        out.push(10);
        write_decimal(out, self.move_number() as i64);
        out.push(10);
        self.captured_ref().write_ascii(out);
        out.push(10);
        self.board_ref().write_ascii(out);
        assert(out@ =~= old(out)@ + spec_position_text(self@));
    }
}

/// A stage's text, whatever follows it, reads back as the stage.
proof fn lemma_stage_text(st: Stage, rest: Seq<u8>)
    ensures
        spec_stage_read(spec_stage_text(st) + rest) == Some((st, spec_stage_text(st).len())),
{
    let t = spec_stage_text(st) + rest;
    match st {
        Stage::Setup => {
            assert(t.subrange(0, 5) =~= setup_word());
        },
        Stage::Regular => {
            assert(t.subrange(0, 7) =~= regular_word());
            assert(t[0] == 114);
            assert(!starts_with(t, setup_word())) by {
                if starts_with(t, setup_word()) {
                    assert(t.subrange(0, 5)[0] == t[0]);
                }
            }
        },
        Stage::End(o) => {
            assert(t.subrange(0, 4) =~= end_word());
            assert(t[0] == 101);
            assert(!starts_with(t, setup_word())) by {
                if starts_with(t, setup_word()) {
                    assert(t.subrange(0, 5)[0] == t[0]);
                }
            }
            assert(!starts_with(t, regular_word())) by {
                if starts_with(t, regular_word()) {
                    assert(t.subrange(0, 7)[0] == t[0]);
                }
            }
            let u = t.skip(4);
            assert(u =~= spec_outcome_text(o) + rest);
            match o {
                Outcome::RedWin => {
                    assert(u.subrange(0, 7) =~= red_win_word());
                },
                Outcome::Draw => {
                    assert(u.subrange(0, 4) =~= draw_word());
                    assert(u[0] == 100);
                    assert(!starts_with(u, red_win_word())) by {
                        if starts_with(u, red_win_word()) {
                            assert(u.subrange(0, 7)[0] == u[0]);
                        }
                    }
                },
                Outcome::BlueWin => {
                    assert(u.subrange(0, 8) =~= blue_win_word());
                    assert(u[0] == 98);
                    assert(!starts_with(u, red_win_word())) by {
                        if starts_with(u, red_win_word()) {
                            assert(u.subrange(0, 7)[0] == u[0]);
                        }
                    }
                    assert(!starts_with(u, draw_word())) by {
                        if starts_with(u, draw_word()) {
                            assert(u.subrange(0, 4)[0] == u[0]);
                        }
                    }
                },
            }
        },
    }
}

/// The captured text has one letter per captured piece.
proof fn lemma_captured_text_len(c: Seq<nat>)
    ensures
        spec_captured_text(c).len() == c[0] + c[1] + c[2] + c[3] + c[4] + c[5] + c[6] + c[7] + c[8] + c[9],
{
    reveal_with_fuel(captured_text_below, 11);
    assert(text_order_piece(0) == ColoredPiece::RedAlfil);
    assert(text_order_piece(1) == ColoredPiece::RedDabbaba);
    assert(text_order_piece(2) == ColoredPiece::RedFerz);
    assert(text_order_piece(3) == ColoredPiece::RedKnight);
    assert(text_order_piece(4) == ColoredPiece::RedWazir);
    assert(text_order_piece(5) == ColoredPiece::BlueAlfil);
    assert(text_order_piece(6) == ColoredPiece::BlueDabbaba);
    assert(text_order_piece(7) == ColoredPiece::BlueFerz);
    assert(text_order_piece(8) == ColoredPiece::BlueKnight);
    assert(text_order_piece(9) == ColoredPiece::BlueWazir);
}

/// In a valid position the captured text has at most 32 letters and no more of a kind
/// than there are in the game.
pub proof fn lemma_valid_captured_text(s: PositionView)
    requires
        spec_valid(s.0, s.1, s.2, s.3),
    ensures
        spec_captured_text(s.3).len() <= 32,
        forall|cp: ColoredPiece| #[trigger] s.3[cp.spec_index() as int] <= spec_total_count(cp.spec_piece()),
{
    let c = s.3;
    lemma_captured_text_len(c);
    if s.0 == Stage::Setup {
        assert forall|cp: ColoredPiece| #[trigger] c[cp.spec_index() as int] <= spec_total_count(cp.spec_piece()) by {
            assert(c[cp.spec_index() as int] == 0);
        }
        assert forall|i: int| 0 <= i < 10 implies c[i] == 0 by {
            assert(c[ColoredPiece::spec_from_index(i).spec_index() as int] == 0);
        }
    } else {
        assert(c[0] + c[1] <= 16) by {
            assert(spec_total_in_game(s.2, c, Piece::Alfil) == 2 * spec_initial_count(Piece::Alfil));
            assert(ColoredPiece::spec_new(Piece::Alfil, Color::Red).spec_index() == 0);
            assert(ColoredPiece::spec_new(Piece::Alfil, Color::Blue).spec_index() == 1);
        }
        assert(c[2] + c[3] <= 8) by {
            assert(spec_total_in_game(s.2, c, Piece::Dabbaba) == 2 * spec_initial_count(Piece::Dabbaba));
            assert(ColoredPiece::spec_new(Piece::Dabbaba, Color::Red).spec_index() == 2);
            assert(ColoredPiece::spec_new(Piece::Dabbaba, Color::Blue).spec_index() == 3);
        }
        assert(c[4] + c[5] <= 4) by {
            assert(spec_total_in_game(s.2, c, Piece::Ferz) == 2 * spec_initial_count(Piece::Ferz));
            assert(ColoredPiece::spec_new(Piece::Ferz, Color::Red).spec_index() == 4);
            assert(ColoredPiece::spec_new(Piece::Ferz, Color::Blue).spec_index() == 5);
        }
        assert(c[6] + c[7] <= 2) by {
            assert(spec_total_in_game(s.2, c, Piece::Knight) == 2 * spec_initial_count(Piece::Knight));
            assert(ColoredPiece::spec_new(Piece::Knight, Color::Red).spec_index() == 6);
            assert(ColoredPiece::spec_new(Piece::Knight, Color::Blue).spec_index() == 7);
        }
        assert(c[8] + c[9] <= 2) by {
            assert(spec_total_in_game(s.2, c, Piece::Wazir) == 2 * spec_initial_count(Piece::Wazir));
            assert(ColoredPiece::spec_new(Piece::Wazir, Color::Red).spec_index() == 8);
            assert(ColoredPiece::spec_new(Piece::Wazir, Color::Blue).spec_index() == 9);
        }
        assert forall|cp: ColoredPiece| #[trigger] c[cp.spec_index() as int] <= spec_total_count(cp.spec_piece()) by {
            assert(spec_total_in_game(s.2, c, cp.spec_piece()) == 2 * spec_initial_count(cp.spec_piece()));
        }
    }
}

/// A valid position's text, whatever follows it, reads back as the position.
#[verifier::rlimit(60)]
#[verifier::spinoff_prover]
pub proof fn lemma_position_text_roundtrip(s: PositionView, rest: Seq<u8>)
    requires
        spec_valid(s.0, s.1, s.2, s.3),
    ensures
        spec_position_read(spec_position_text(s) + rest) == Some((s, spec_position_text(s).len())),
{
    let nl = seq![10u8];
    let st = spec_stage_text(s.0);
    let dg = spec_digits(s.1);
    let ct = spec_captured_text(s.3);
    let bt = spec_board_text(s.2);
    let input = spec_position_text(s) + rest;
    let s3 = bt + rest;
    let s2 = ct + nl + s3;
    let s1 = dg + nl + s2;
    assert(input =~= st + (nl + s1));
    lemma_stage_text(s.0, nl + s1);
    assert(spec_stage_read(input) == Some((s.0, st.len())));
    let a = st.len();
    assert(input[a as int] == 10);
    assert(input.skip(a + 1int) =~= s1);
    lemma_digits_text(s.1);
    lemma_digits_len(s1, dg.len() as int);
    assert(s1.take(dg.len() as int) =~= dg);
    assert(s1[dg.len() as int] == 10);
    assert(s1.skip(dg.len() + 1int) =~= s2);
    lemma_valid_captured_text(s);
    lemma_captured_text_roundtrip(s.3, nl + s3);
    assert(s2 =~= ct + (nl + s3));
    assert(s2[ct.len() as int] == 10);
    assert(s2.skip(ct.len() + 1int) =~= s3);
    assert(spec_captured_text_ok(s2));
    lemma_board_text_roundtrip(s.2, rest);
    assert(spec_position_text(s).len() == a + 1 + dg.len() + 1 + ct.len() + 1 + 72);
}

} // verus!
