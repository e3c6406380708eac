use crate::color::Color;
use crate::movegen::{any_move_from_short_move, spec_move_from_short};
use crate::moves::{
    lemma_move_text_roundtrip, lemma_short_text_roundtrip, spec_move_len, spec_move_parsed,
    spec_move_text, spec_short_len, spec_short_of_move, spec_short_parsed, spec_short_text,
    ShortMoveFrom, Move, MoveParser, ShortMove, ShortMoveParser,
};
use crate::parser::{
    bytes_start_with, decimal_value, digits_len, lemma_digits_len, starts_with, ParseError, Parser,
    U32Parser,
};
use crate::position::{spec_regular_step, spec_setup_legal, spec_setup_result, Position, PositionView};
use crate::score::{lemma_digits_text, spec_digits, write_decimal};
use vstd::prelude::*;

verus! {

/// A command of the referee.
#[derive(Debug, Clone)]
pub enum CliCommand {
    /// The time limit for the game, in milliseconds.
    TimeLimit(u32),
    /// Moves already played.
    Opening(Vec<Move>),
    /// The program plays first.
    Start,
    /// The opponent's move.
    OpponentMove(ShortMove),
    Quit,
}

/// `Time ` as bytes.
pub open spec fn time_word() -> Seq<u8> {
    seq![84u8, 105u8, 109u8, 101u8, 32u8]
}

/// `Opening` as bytes.
pub open spec fn opening_word() -> Seq<u8> {
    seq![79u8, 112u8, 101u8, 110u8, 105u8, 110u8, 103u8]
}

/// `Start` as bytes.
pub open spec fn start_word() -> Seq<u8> {
    seq![83u8, 116u8, 97u8, 114u8, 116u8]
}

/// `Quit` as bytes.
pub open spec fn quit_word() -> Seq<u8> {
    seq![81u8, 117u8, 105u8, 116u8]
}

/// Another opening move follows: a space, then a move.
pub open spec fn opening_more(input: Seq<u8>) -> bool {
    &&& input.len() >= 1
    &&& input[0] == 32
    &&& spec_move_len(input.skip(1)) is Some
    &&& 1 + spec_move_len(input.skip(1))->0 <= input.len()
}

/// How many bytes the opening moves take: as many ` move` items as follow each other.
pub open spec fn opening_consumed(input: Seq<u8>) -> nat
    decreases input.len(),
{
    if opening_more(input) {
        let k = 1 + spec_move_len(input.skip(1))->0;
        k + opening_consumed(input.skip(k as int))
    } else {
        0
    }
}

/// `moves` are the opening moves read from the input.
pub open spec fn opening_moves_read(input: Seq<u8>, moves: Seq<Move>) -> bool
    decreases moves.len(),
{
    if moves.len() == 0 {
        !opening_more(input)
    } else {
        let k = 1 + spec_move_len(input.skip(1))->0;
        &&& opening_more(input)
        &&& spec_move_parsed(input.skip(1), moves[0])
        &&& opening_moves_read(input.skip(k as int), moves.skip(1))
    }
}

/// The bytes after the command at the start of a line, `None` when no command starts it.
/// The commands are tried in order: time limit, opening, start, quit, opponent move.
pub open spec fn cli_command_rest(input: Seq<u8>) -> Option<Seq<u8>> {
    if starts_with(input, time_word()) && digits_len(input.skip(5)) >= 1 && decimal_value(
        input.skip(5).take(digits_len(input.skip(5)) as int),
    ) <= u32::MAX {
        Some(input.skip(5 + digits_len(input.skip(5)) as int))
    } else if starts_with(input, opening_word()) {
        Some(input.skip(7 + opening_consumed(input.skip(7)) as int))
    } else if starts_with(input, start_word()) {
        Some(input.skip(5))
    } else if starts_with(input, quit_word()) {
        Some(input.skip(4))
    } else if spec_short_len(input) is Some {
        Some(input.skip(spec_short_len(input)->0 as int))
    } else {
        None
    }
}

/// The line is a command followed by a line end.
pub open spec fn cli_line_ok(input: Seq<u8>) -> bool {
    cli_command_rest(input) == Some(seq![10u8])
}

/// `c` is the command the line starts with.
pub open spec fn cli_line_value(input: Seq<u8>, c: CliCommand) -> bool {
    if starts_with(input, time_word()) && digits_len(input.skip(5)) >= 1 && decimal_value(
        input.skip(5).take(digits_len(input.skip(5)) as int),
    ) <= u32::MAX {
        c matches CliCommand::TimeLimit(ms) && ms == decimal_value(input.skip(5).take(digits_len(input.skip(5)) as int))
    } else if starts_with(input, opening_word()) {
        c matches CliCommand::Opening(moves) && opening_moves_read(input.skip(7), moves@)
    } else if starts_with(input, start_word()) {
        c is Start
    } else if starts_with(input, quit_word()) {
        c is Quit
    } else {
        c matches CliCommand::OpponentMove(m) && spec_short_parsed(input, m)
    }
}

/// The text of a command, without the line end.
pub open spec fn spec_cli_text(c: CliCommand) -> Seq<u8> {
    match c {
        CliCommand::TimeLimit(ms) => time_word() + spec_digits(ms as nat),
        CliCommand::Opening(moves) => opening_word() + opening_text(moves@),
        CliCommand::Start => start_word(),
        CliCommand::OpponentMove(m) => spec_short_text(m),
        CliCommand::Quit => quit_word(),
    }
}

/// Each move preceded by a space.
pub open spec fn opening_text(moves: Seq<Move>) -> Seq<u8>
    decreases moves.len(),
{
    if moves.len() == 0 {
        Seq::empty()
    } else {
        opening_text(moves.drop_last()) + seq![32u8] + spec_move_text(moves.last())
    }
}

/// None of the moves is a drop that captures, which has no text.
pub open spec fn moves_printable(moves: Seq<Move>) -> bool {
    forall|i: int|
        0 <= i < moves.len() ==> (#[trigger] moves[i] matches Move::Regular(m) ==> !(m.from is None
            && m.captured is Some))
}

fn push_bytes(out: &mut Vec<u8>, bytes: &[u8])
    ensures
        final(out)@ == old(out)@ + bytes@,
{
    let mut i: usize = 0;
    while i < bytes.len()
        invariant
            i <= bytes@.len(),
            out@ == old(out)@ + bytes@.subrange(0, i as int),
        decreases bytes@.len() - i,
    {
        out.push(bytes[i]);
        proof {
            assert(out@ =~= old(out)@ + bytes@.subrange(0, i + 1));
        }
        i = i + 1;
    }
    assert(bytes@.subrange(0, bytes@.len() as int) =~= bytes@);
}

/// Reads the opening moves: as many ` move` items as follow each other.
fn parse_opening_moves(input: &[u8]) -> (r: (Vec<Move>, usize))
    ensures
        r.1 <= input@.len(),
        r.1 == opening_consumed(input@),
        opening_moves_read(input@, r.0@),
{
    let mut moves: Vec<Move> = Vec::new();
    let mut pos: usize = 0;
    proof {
        assert(input@.skip(0) =~= input@);
        assert forall|tail: Seq<Move>|
            opening_moves_read(input@.skip(0), tail) implies #[trigger] opening_moves_read(
                input@,
                moves@ + tail,
            ) by {
            assert(moves@ + tail =~= tail);
        }
    }
    loop
        invariant
            pos <= input@.len(),
            opening_consumed(input@) == pos + opening_consumed(input@.skip(pos as int)),
            forall|tail: Seq<Move>|
                opening_moves_read(input@.skip(pos as int), tail) ==> #[trigger] opening_moves_read(
                    input@,
                    moves@ + tail,
                ),
        decreases input@.len() - pos,
    {
        let rest = vstd::slice::slice_subrange(input, pos, input.len());
        assert(rest@ =~= input@.skip(pos as int));
        if rest.len() == 0 || rest[0] != 32 {
            proof {
                assert(!opening_more(rest@));
                assert(opening_moves_read(rest@, Seq::<Move>::empty()));
                assert(moves@ + Seq::<Move>::empty() =~= moves@);
            }
            return (moves, pos);
        }
        let after_space = vstd::slice::slice_subrange(rest, 1, rest.len());
        assert(after_space@ =~= rest@.skip(1));
        match MoveParser.parse(after_space) {
            Err(_) => {
                proof {
                    assert(!opening_more(rest@));
                    assert(opening_moves_read(rest@, Seq::<Move>::empty()));
                    assert(moves@ + Seq::<Move>::empty() =~= moves@);
                }
                return (moves, pos);
            },
            Ok(s) => {
                let k = rest.len() - s.remaining.len();
                proof {
                    let n = spec_move_len(rest@.skip(1))->0;
                    assert(k == 1 + n);
                    assert(opening_more(rest@));
                    assert(rest@.skip(k as int) =~= input@.skip(pos + k));
                    let old_moves = moves@;
                    assert forall|tail: Seq<Move>|
                        opening_moves_read(input@.skip(pos + k), tail) implies #[trigger] opening_moves_read(
                            input@,
                            old_moves.push(s.value) + tail,
                        ) by {
                        let t2 = seq![s.value] + tail;
                        assert(t2.skip(1) =~= tail);
                        assert(t2[0] == s.value);
                        assert(opening_moves_read(rest@, t2));
                        assert(old_moves + t2 =~= old_moves.push(s.value) + tail);
                    }
                }
                moves.push(s.value);
                pos = pos + k;
            },
        }
    }
}

/// The command at the start of a line and the bytes after it.
fn parse_command(input: &[u8]) -> (r: Option<(CliCommand, &[u8])>)
    ensures
        match cli_command_rest(input@) {
            Some(rest) => r matches Some((c, rr)) && rr@ == rest && cli_line_value(input@, c),
            None => r is None,
        },
{
    if bytes_start_with(input, &[84u8, 105, 109, 101, 32]) {
        let after = vstd::slice::slice_subrange(input, 5, input.len());
        assert(after@ =~= input@.skip(5));
        match U32Parser.parse(after) {
            Ok(s) => {
                proof {
                    let n = digits_len(input@.skip(5));
                    assert(s.remaining@ =~= input@.skip(5 + n as int));
                }
                return Some((CliCommand::TimeLimit(s.value), s.remaining));
            },
            Err(_) => {},
        }
    }
    if bytes_start_with(input, &[79u8, 112, 101, 110, 105, 110, 103]) {
        let after = vstd::slice::slice_subrange(input, 7, input.len());
        assert(after@ =~= input@.skip(7));
        let (moves, k) = parse_opening_moves(after);
        let rest = vstd::slice::slice_subrange(after, k, after.len());
        assert(rest@ =~= input@.skip(7 + k as int));
        Some((CliCommand::Opening(moves), rest))
    } else if bytes_start_with(input, &[83u8, 116, 97, 114, 116]) {
        let rest = vstd::slice::slice_subrange(input, 5, input.len());
        assert(rest@ =~= input@.skip(5));
        Some((CliCommand::Start, rest))
    } else if bytes_start_with(input, &[81u8, 117, 105, 116]) {
        let rest = vstd::slice::slice_subrange(input, 4, input.len());
        assert(rest@ =~= input@.skip(4));
        Some((CliCommand::Quit, rest))
    } else {
        match ShortMoveParser.parse(input) {
            Ok(s) => Some((CliCommand::OpponentMove(s.value), s.remaining)),
            Err(_) => None,
        }
    }
}

impl CliCommand {
    /// Parses a command line, line end included.
    pub fn parse_line(input: &[u8]) -> (r: Result<CliCommand, ParseError>)
        ensures
            r is Ok <==> cli_line_ok(input@),
            r matches Ok(c) ==> cli_line_value(input@, c),
    {
        match parse_command(input) {
            None => Err(ParseError),
            Some((command, rest)) => {
                if rest.len() == 1 && rest[0] == 10 {
                    assert(rest@ =~= seq![10u8]);
                    Ok(command)
                } else {
                    proof {
                        if rest@ == seq![10u8] {
                            assert(rest@.len() == 1 && rest@[0] == 10);
                        }
                    }
                    Err(ParseError)
                }
            },
        }
    }

    /// Appends the text of the command, without the line end.
    pub fn write_ascii(&self, out: &mut Vec<u8>)
        requires
            self matches CliCommand::Opening(moves) ==> moves_printable(moves@),
        ensures
            final(out)@ == old(out)@ + spec_cli_text(*self),
    {
        match self {
            CliCommand::TimeLimit(ms) => {
                push_bytes(out, &[84u8, 105, 109, 101, 32]);
                write_decimal(out, *ms as i64);
            },
            CliCommand::Opening(moves) => {
                push_bytes(out, &[79u8, 112, 101, 110, 105, 110, 103]);
                let mut i: usize = 0;
                while i < moves.len()
                    invariant
                        i <= moves@.len(),
                        moves_printable(moves@),
                        out@ == old(out)@ + opening_word() + opening_text(moves@.subrange(0, i as int)),
                    decreases moves@.len() - i,
                {
                    out.push(32);
                    let m = moves[i];
                    proof {
                        assert(moves@[i as int] == m);
                    }
                    m.write_ascii(out);
                    proof {
                        let s = moves@.subrange(0, i + 1);
                        assert(s.drop_last() =~= moves@.subrange(0, i as int));
                        assert(out@ =~= old(out)@ + opening_word() + opening_text(s));
                    }
                    i = i + 1;
                }
                assert(moves@.subrange(0, moves@.len() as int) =~= moves@);
            },
            CliCommand::Start => push_bytes(out, &[83u8, 116, 97, 114, 116]),
            CliCommand::OpponentMove(m) => m.write_ascii(out),
            CliCommand::Quit => push_bytes(out, &[81u8, 117, 105, 116]),
        }
    }
}

/// Why the session with the referee stops.
#[derive(Debug, Clone)]
pub enum CliError {
    /// The line is not a command.
    InvalidCommand(Vec<u8>),
    TimeCommandTooLate,
    OpeningCommandTooLate,
    StartCommandTooLate,
    InvalidOpeningMove(Move),
    InvalidPlayerMove(Move),
    InvalidOpponentMove(ShortMove),
}

/// What the caller is to do after a command.
#[derive(Debug, Clone, Copy)]
pub struct CliReply {
    /// Stop reading commands.
    pub quit: bool,
    /// Start the clock over with this many milliseconds.
    pub time_limit: Option<u32>,
    /// Start the clock of the program.
    pub start_timer: bool,
    /// Create the player, for this color.
    pub create_player: Option<Color>,
    /// Tell the player the opponent's move, made in the position before it.
    pub opponent_move: Option<Move>,
    /// Ask the player for its move and pass it to `player_move`.
    pub ask_player: bool,
}

/// The position after a move, `None` when the move is not legal.
pub open spec fn spec_step(s: PositionView, m: Move) -> Option<PositionView> {
    match m {
        Move::Setup(x) => if spec_setup_legal(s, x) {
            Some(spec_setup_result(s, x))
        } else {
            None
        },
        Move::Regular(x) => spec_regular_step(s, x),
    }
}

/// The position after playing moves in order, or the first move that is not legal.
pub open spec fn spec_play(s: PositionView, moves: Seq<Move>) -> Result<PositionView, Move>
    decreases moves.len(),
{
    if moves.len() == 0 {
        Ok(s)
    } else {
        match spec_play(s, moves.drop_last()) {
            Err(m) => Err(m),
            Ok(t) => match spec_step(t, moves.last()) {
                None => Err(moves.last()),
                Some(u) => Ok(u),
            },
        }
    }
}

/// A reply that asks for nothing.
pub open spec fn quiet_reply(ask_player: bool) -> CliReply {
    CliReply {
        quit: false,
        time_limit: None,
        start_timer: false,
        create_player: None,
        opponent_move: None,
        ask_player,
    }
}

/// The state of a session with the referee: the game so far, the opening given, the time
/// limit given, and whether the player was created.
pub struct CliSession {
    position: Position,
    opening: Vec<Move>,
    time_limit: Option<u32>,
    has_player: bool,
}

impl CliSession {
    pub closed spec fn game(self) -> PositionView {
        self.position@
    }

    pub closed spec fn opening(self) -> Seq<Move> {
        self.opening@
    }

    pub closed spec fn time_limit(self) -> Option<u32> {
        self.time_limit
    }

    pub closed spec fn has_player(self) -> bool {
        self.has_player
    }

    /// A session at the start of a game.
    pub fn new() -> (r: CliSession)
        ensures
            r.game() == (crate::position::Stage::Setup, 0nat, crate::board::spec_empty_board(), crate::captured::spec_no_captures()),
            r.opening() == Seq::<Move>::empty(),
            r.time_limit() is None,
            !r.has_player(),
    {
        let position = Position::initial();
        CliSession { position, opening: Vec::new(), time_limit: None, has_player: false }
    }

    /// The game so far.
    pub fn position(&self) -> (r: &Position)
        ensures
            r@ == self.game(),
    {
        &self.position
    }

    /// Handles a command: a time limit or an opening only before the player exists (and
    /// once each), a start only before, an opponent's move whenever it is valid.
    pub fn command(&mut self, command: CliCommand) -> (r: Result<CliReply, CliError>)
        ensures
            match command {
                CliCommand::TimeLimit(ms) => if old(self).has_player() || old(self).time_limit() is Some {
                    r matches Err(CliError::TimeCommandTooLate) && *final(self) == *old(self)
                } else {
                    r == Ok::<CliReply, CliError>(CliReply { time_limit: Some(ms), ..quiet_reply(false) })
                        && final(self).time_limit() == Some(ms) && final(self).game() == old(self).game()
                        && final(self).opening() == old(self).opening() && final(self).has_player() == old(self).has_player()
                },
                CliCommand::Opening(moves) => if old(self).has_player() || old(self).opening().len() > 0 {
                    r matches Err(CliError::OpeningCommandTooLate) && *final(self) == *old(self)
                } else {
                    match spec_play(old(self).game(), moves@) {
                        Err(m) => r matches Err(CliError::InvalidOpeningMove(e)) && e == m && *final(self) == *old(self),
                        Ok(p) => r == Ok::<CliReply, CliError>(quiet_reply(false)) && final(self).game() == p
                            && final(self).opening() == moves@ && final(self).time_limit() == old(self).time_limit()
                            && final(self).has_player() == old(self).has_player(),
                    }
                },
                CliCommand::Start => if old(self).has_player() {
                    r matches Err(CliError::StartCommandTooLate) && *final(self) == *old(self)
                } else {
                    r == Ok::<CliReply, CliError>(CliReply { start_timer: true, create_player: Some(Color::Red), ..quiet_reply(true) })
                        && final(self).has_player() && final(self).game() == old(self).game()
                        && final(self).opening() == old(self).opening() && final(self).time_limit() == old(self).time_limit()
                },
                CliCommand::OpponentMove(sm) => match spec_move_from_short(old(self).game(), sm) {
                    None => r matches Err(CliError::InvalidOpponentMove(e)) && e == sm && *final(self) == *old(self),
                    Some(m) => match spec_step(old(self).game(), m) {
                        None => r matches Err(CliError::InvalidOpponentMove(e)) && e == sm && *final(self) == *old(self),
                        Some(p) => r == Ok::<CliReply, CliError>(CliReply {
                            start_timer: true,
                            create_player: if old(self).has_player() { None } else { Some(Color::Blue) },
                            opponent_move: Some(m),
                            ..quiet_reply(true)
                        }) && final(self).game() == p && final(self).has_player()
                            && final(self).opening() == old(self).opening() && final(self).time_limit() == old(self).time_limit(),
                    },
                },
                CliCommand::Quit => r == Ok::<CliReply, CliError>(CliReply { quit: true, ..quiet_reply(false) })
                    && *final(self) == *old(self),
            },
    {
        match command {
            CliCommand::TimeLimit(ms) => {
                if self.has_player || self.time_limit.is_some() {
                    return Err(CliError::TimeCommandTooLate);
                }
                self.time_limit = Some(ms);
                Ok(CliReply {
                    quit: false,
                    time_limit: Some(ms),
                    start_timer: false,
                    create_player: None,
                    opponent_move: None,
                    ask_player: false,
                })
            },
            CliCommand::Opening(moves) => {
                if self.has_player || self.opening.len() > 0 {
                    return Err(CliError::OpeningCommandTooLate);
                }
                let position = match play_moves(&self.position, &moves) {
                    Ok(p) => p,
                    Err(mov) => {
                        return Err(CliError::InvalidOpeningMove(mov));
                    },
                };
                self.position = position;
                self.opening = moves;
                Ok(CliReply {
                    quit: false,
                    time_limit: None,
                    start_timer: false,
                    create_player: None,
                    opponent_move: None,
                    ask_player: false,
                })
            },
            CliCommand::Start => {
                if self.has_player {
                    return Err(CliError::StartCommandTooLate);
                }
                self.has_player = true;
                Ok(CliReply {
                    quit: false,
                    time_limit: None,
                    start_timer: true,
                    create_player: Some(Color::Red),
                    opponent_move: None,
                    ask_player: true,
                })
            },
            CliCommand::OpponentMove(short_move) => {
                let mov = match any_move_from_short_move(&self.position, short_move) {
                    Ok(m) => m,
                    Err(_) => {
                        return Err(CliError::InvalidOpponentMove(short_move));
                    },
                };
                let next = match self.position.make_move(mov) {
                    Ok(p) => p,
                    Err(_) => {
                        return Err(CliError::InvalidOpponentMove(short_move));
                    },
                };
                let create_player = if self.has_player {
                    None
                } else {
                    Some(Color::Blue)
                };
                self.has_player = true;
                self.position = next;
                Ok(CliReply {
                    quit: false,
                    time_limit: None,
                    start_timer: true,
                    create_player,
                    opponent_move: Some(mov),
                    ask_player: true,
                })
            },
            CliCommand::Quit => Ok(CliReply {
                quit: true,
                time_limit: None,
                start_timer: false,
                create_player: None,
                opponent_move: None,
                ask_player: false,
            }),
        }
    }

    /// Plays the player's move; answers the text to send, in short notation.
    pub fn player_move(&mut self, mov: Move) -> (r: Result<ShortMove, CliError>)
        ensures
            match spec_step(old(self).game(), mov) {
                None => r matches Err(CliError::InvalidPlayerMove(e)) && e == mov && *final(self) == *old(self),
                Some(p) => r == Ok::<ShortMove, CliError>(spec_short_of_move(mov)) && final(self).game() == p
                    && final(self).opening() == old(self).opening() && final(self).time_limit() == old(self).time_limit()
                    && final(self).has_player() == old(self).has_player(),
            },
    {
        match self.position.make_move(mov) {
            Ok(p) => {
                self.position = p;
                Ok(ShortMove::from_move(mov))
            },
            Err(_) => Err(CliError::InvalidPlayerMove(mov)),
        }
    }
}

/// Plays the moves in order from `position`; the first move that is not legal, if any.
fn play_moves(position: &Position, moves: &Vec<Move>) -> (r: Result<Position, Move>)
    ensures
        match spec_play(position@, moves@) {
            Ok(p) => r matches Ok(q) && q@ == p,
            Err(m) => r == Err::<Position, Move>(m),
        },
{
    let mut current = *position;
    let mut i: usize = 0;
    while i < moves.len()
        invariant
            i <= moves@.len(),
            spec_play(position@, moves@.subrange(0, i as int)) == Ok::<PositionView, Move>(current@),
        decreases moves@.len() - i,
    {
        let mov = moves[i];
        proof {
            let s = moves@.subrange(0, i + 1);
            assert(s.drop_last() =~= moves@.subrange(0, i as int));
            assert(s.last() == mov);
        }
        match current.make_move(mov) {
            Ok(p) => {
                current = p;
            },
            Err(_) => {
                proof {
                    assert(moves@[i as int] == mov);
                    assert(spec_step(current@, mov) is None);
                    lemma_play_prefix_err(position@, moves@, i as int);
                }
                return Err(mov);
            },
        }
        i = i + 1;
    }
    assert(moves@.subrange(0, moves@.len() as int) =~= moves@);
    Ok(current)
}

/// Playing a prefix that ends with an illegal move fails at that move.
proof fn lemma_play_prefix_err(s: PositionView, moves: Seq<Move>, i: int)
    requires
        0 <= i < moves.len(),
        spec_play(s, moves.subrange(0, i)) is Ok,
        spec_step(spec_play(s, moves.subrange(0, i))->Ok_0, moves[i]) is None,
    ensures
        spec_play(s, moves) == Err::<PositionView, Move>(moves[i]),
    decreases moves.len() - i,
{
    let s1 = moves.subrange(0, i + 1);
    assert(s1.drop_last() =~= moves.subrange(0, i));
    lemma_play_err_extends(s, moves, i + 1);
}

/// Once playing a prefix fails, playing more fails with the same move.
proof fn lemma_play_err_extends(s: PositionView, moves: Seq<Move>, k: int)
    requires
        0 <= k <= moves.len(),
        spec_play(s, moves.subrange(0, k)) is Err,
    ensures
        spec_play(s, moves) == spec_play(s, moves.subrange(0, k)),
    decreases moves.len() - k,
{
    if k < moves.len() {
        let s1 = moves.subrange(0, k + 1);
        assert(s1.drop_last() =~= moves.subrange(0, k));
        lemma_play_err_extends(s, moves, k + 1);
    } else {
        assert(moves.subrange(0, k) =~= moves);
    }
}

/// The opening text starts with its first move.
proof fn lemma_opening_text_front(moves: Seq<Move>)
    requires
        moves.len() >= 1,
    ensures
        opening_text(moves) == seq![32u8] + spec_move_text(moves[0]) + opening_text(moves.skip(1)),
    decreases moves.len(),
{
    if moves.len() == 1 {
        assert(moves.drop_last() =~= Seq::<Move>::empty());
        assert(moves.skip(1) =~= Seq::<Move>::empty());
        assert(opening_text(moves) =~= seq![32u8] + spec_move_text(moves[0]) + opening_text(moves.skip(1)));
    } else {
        let init = moves.drop_last();
        lemma_opening_text_front(init);
        assert(init.skip(1) =~= moves.skip(1).drop_last());
        assert(moves.skip(1).last() == moves.last());
        assert(opening_text(moves) =~= seq![32u8] + spec_move_text(moves[0]) + opening_text(moves.skip(1)));
    }
}

/// Opening moves written one after another, before a byte other than a space, read back
/// as the same moves.
#[verifier::rlimit(60)]
#[verifier::spinoff_prover]
proof fn lemma_opening_text(moves: Seq<Move>, rest: Seq<u8>)
    requires
        moves_printable(moves),
        rest.len() == 0 || rest[0] != 32,
    ensures
        opening_consumed(opening_text(moves) + rest) == opening_text(moves).len(),
        opening_moves_read(opening_text(moves) + rest, moves),
    decreases moves.len(),
{
    if moves.len() == 0 {
        assert(opening_text(moves) + rest =~= rest);
    } else {
        lemma_opening_text_front(moves);
        let tail = moves.skip(1);
        assert(moves_printable(tail)) by {
            assert forall|i: int| 0 <= i < tail.len() implies (#[trigger] tail[i] matches Move::Regular(m) ==> !(m.from is None
                && m.captured is Some)) by {
                assert(tail[i] == moves[i + 1]);
            }
        }
        lemma_opening_text(tail, rest);
        let t = spec_move_text(moves[0]);
        let after = opening_text(tail) + rest;
        let input = opening_text(moves) + rest;
        assert(input =~= seq![32u8] + (t + after));
        assert(input.skip(1) =~= t + after);
        lemma_move_text_roundtrip(moves[0], after);
        let k = 1 + t.len();
        assert(input.skip(k as int) =~= after);
        assert(spec_move_len(input.skip(1)) == Some(t.len()));
        assert(opening_more(input));
        assert(opening_consumed(input) == k + opening_consumed(after));
        assert(spec_move_parsed(input.skip(1), moves[0]));
        assert(moves.skip(1) == tail);
        assert(opening_moves_read(input, moves));
    }
}

/// The text of a command, followed by a line end, reads back as the command.
pub proof fn lemma_cli_text_roundtrip(c: CliCommand)
    requires
        c matches CliCommand::Opening(moves) ==> moves_printable(moves@),
    ensures
        cli_line_ok(spec_cli_text(c) + seq![10u8]),
        cli_line_value(spec_cli_text(c) + seq![10u8], c),
{
    let nl = seq![10u8];
    let input = spec_cli_text(c) + nl;
    match c {
        CliCommand::TimeLimit(ms) => {
            lemma_digits_text(ms as nat);
            let d = spec_digits(ms as nat);
            assert(input =~= time_word() + (d + nl));
            assert(input.subrange(0, 5) =~= time_word());
            assert(input.skip(5) =~= d + nl);
            lemma_digits_len(d + nl, d.len() as int);
            assert((d + nl).take(d.len() as int) =~= d);
            assert(input.skip(5 + d.len() as int) =~= nl);
        },
        CliCommand::Opening(moves) => {
            lemma_opening_text(moves@, nl);
            assert(input =~= opening_word() + (opening_text(moves@) + nl));
            assert(input.subrange(0, 7) =~= opening_word());
            assert(input.skip(7) =~= opening_text(moves@) + nl);
            assert(input.skip(7 + opening_text(moves@).len() as int) =~= nl);
            assert(!starts_with(input, time_word())) by {
                assert(input[0] == 79);
                if starts_with(input, time_word()) {
                    assert(input.subrange(0, 5)[0] == input[0]);
                }
            }
        },
        CliCommand::Start => {
            assert(input.subrange(0, 5) =~= start_word());
            assert(input.skip(5) =~= nl);
            assert(!starts_with(input, time_word())) by {
                if starts_with(input, time_word()) {
                    assert(input.subrange(0, 5)[0] == input[0]);
                }
            }
            assert(!starts_with(input, opening_word())) by {
                if starts_with(input, opening_word()) {
                    assert(input.subrange(0, 7)[0] == input[0]);
                }
            }
        },
        CliCommand::Quit => {
            assert(input.subrange(0, 4) =~= quit_word());
            assert(input.skip(4) =~= nl);
            assert(!starts_with(input, time_word())) by {
                if starts_with(input, time_word()) {
                    assert(input.subrange(0, 5)[0] == input[0]);
                }
            }
            assert(!starts_with(input, opening_word())) by {
                if starts_with(input, opening_word()) {
                    assert(input.subrange(0, 7)[0] == input[0]);
                }
            }
            assert(!starts_with(input, start_word())) by {
                if starts_with(input, start_word()) {
                    assert(input.subrange(0, 5)[0] == input[0]);
                }
            }
        },
        CliCommand::OpponentMove(m) => {
            lemma_short_text_roundtrip(m, nl);
            let t = spec_short_text(m);
            assert(input.skip(t.len() as int) =~= nl);
            let b = input[0];
            assert(b != 84 && b != 79 && b != 83 && b != 81) by {
                match m {
                    ShortMove::Setup(sm) => {
                        assert(b == t[0]);
                    },
                    ShortMove::Regular { from, to } => {
                        match from {
                            ShortMoveFrom::Piece(cp) => {
                                assert(b == t[0]);
                            },
                            ShortMoveFrom::Square(sq) => {
                                assert(b == t[0]);
                                assert(sq.spec_index() < 64);
                            },
                        }
                    },
                }
            }
            assert(!starts_with(input, time_word())) by {
                if starts_with(input, time_word()) {
                    assert(input.subrange(0, 5)[0] == input[0]);
                }
            }
            assert(!starts_with(input, opening_word())) by {
                if starts_with(input, opening_word()) {
                    assert(input.subrange(0, 7)[0] == input[0]);
                }
            }
            assert(!starts_with(input, start_word())) by {
                if starts_with(input, start_word()) {
                    assert(input.subrange(0, 5)[0] == input[0]);
                }
            }
            assert(!starts_with(input, quit_word())) by {
                if starts_with(input, quit_word()) {
                    assert(input.subrange(0, 4)[0] == input[0]);
                }
            }
        },
    }
}

} // verus!
