use crate::clock::{sat_sub, Timer};
use crate::color::Color;
use crate::history::History;
use crate::linear_eval::LinearEvaluator;
use crate::moves::{Move, RegularMove, SetupMove};
use crate::piece::{ColoredPiece, Piece};
use crate::position::{spec_regular_step, spec_setup_legal, spec_to_move, Position, Stage};
use crate::search::{Deadlines, Search, SearchParams};
use crate::setups::{first_setup_pieces, lemma_first_setup_valid, setup_moves};
use crate::square::Square;
use vstd::prelude::*;

verus! {

/// Plays one game.
pub trait Player {
    /// Hears the opponent's move, made in `position`. By default it is ignored.
    fn opponent_move(&mut self, position: &Position, mov: Move, timer: &Timer) {
    }

    /// Chooses a move in `position`.
    fn make_move(&mut self, position: &Position, timer: &Timer) -> Move;
}

/// Creates players.
pub trait PlayerFactory {
    /// The players it creates.
    type Output: Player;

    /// A player for `color`, after the opening moves, with the time limit in milliseconds
    /// if one was given.
    fn create(&self, game_id: &str, color: Color, opening: &[Move], time_limit: Option<u32>) -> Self::Output;
}

/// The opening book: red's setup, blue's reply to some of red's setups, and the setups
/// among which blue searches for a reply to the others.
#[derive(Clone)]
pub struct OpeningBook {
    pub red: Option<SetupMove>,
    pub blue_replies: Vec<(SetupMove, SetupMove)>,
    pub blue_candidates: Vec<SetupMove>,
}

/// How much of the time left to spend on a move, by ply: for the hard deadline, the soft
/// one, the one for starting another depth, and the two panic deadlines, in millionths
/// of the time left less the margin (which is in nanoseconds).
#[derive(Clone)]
pub struct TimeAllocation {
    pub per_ply: Vec<[u32; 5]>,
    pub margin: u64,
}

/// The two setups hold the same pieces in the same order and are of one color.
fn same_setup(a: &SetupMove, b: &SetupMove) -> (r: bool)
    ensures
        r == (a.color == b.color && a.pieces@ == b.pieces@),
{
    if a.color != b.color {
        return false;
    }
    let mut i: usize = 0;
    while i < 16
        invariant
            i <= 16,
            a.pieces@.len() == 16,
            b.pieces@.len() == 16,
            forall|j: int| 0 <= j < i ==> a.pieces@[j] == b.pieces@[j],
        decreases 16 - i,
    {
        if a.pieces[i] != b.pieces[i] {
            return false;
        }
        i += 1;
    }
    assert(a.pieces@ =~= b.pieces@);
    true
}

/// The time left at which `fraction` millionths (at most a whole) of `to_allocate` have
/// been spent from `time_left`, rounding the time spent down; none left if that is more.
fn left_at_deadline(time_left: u64, to_allocate: u64, fraction: u32) -> (r: u64)
    ensures
        r == sat_sub(
            time_left as nat,
            (to_allocate as nat * (if fraction > 1000000 { 1000000nat } else { fraction as nat }) / 1000000) as nat,
        ),
{
    let f: u128 = if fraction > 1000000 {
        1000000
    } else {
        fraction as u128
    };
    let a = to_allocate as u128;
    assert(a * f <= a * 1000000) by (nonlinear_arith)
        requires
            f <= 1000000,
    ;
    assert(a * 1000000 <= 18446744073709551615u128 * 1000000) by (nonlinear_arith)
        requires
            a <= 18446744073709551615u128,
    ;
    let product = a * f;
    assert(product / 1000000 <= a) by (nonlinear_arith)
        requires
            product <= a * 1000000,
    ;
    let spend = (product / 1000000) as u64;
    time_left.saturating_sub(spend)
}

/// The instant at which the time left falls to `time_left` less `fraction` millionths
/// of `to_allocate`: the timer's instant for the reading `left_at_deadline` gives.
fn deadline_at(timer: &Timer, time_left: u64, to_allocate: u64, fraction: u32) -> std::time::Instant
    requires
        timer.stopwatch().running(),
{
    timer.instant_at(left_at_deadline(time_left, to_allocate, fraction))
}

/// A move in no position: what a player returns when nothing can be played.
fn no_move() -> Move {
    Move::Regular(RegularMove { colored_piece: ColoredPiece::RedWazir, from: None, captured: None, to: Square::A1 })
}

/// The game as a player follows it: the position and the history that ends with it.
pub struct GameLine {
    position: Position,
    history: History,
}

impl GameLine {
    /// The history is well formed, ends with the position, and has no cut past it.
    #[verifier::type_invariant]
    spec fn inv(self) -> bool {
        &&& self.history.wf()
        &&& self.history.hashes().len() > 0
        &&& self.history.next_ply() == self.position@.1 + 1
        &&& forall|i: int| 0 <= i < self.history.cuts().len() ==> #[trigger] self.history.cuts()[i] < self.history.next_ply()
    }

    /// The position reached.
    pub closed spec fn pos(self) -> crate::position::PositionView {
        self.position@
    }

    /// The start of a game.
    pub fn new() -> (r: GameLine)
        ensures
            r.pos() == (Stage::Setup, 0nat, crate::board::spec_empty_board(), crate::captured::spec_no_captures()),
    {
        let position = Position::initial();
        let history = History::new_from_position(&position);
        GameLine { position, history }
    }

    /// The position reached.
    pub fn position(&self) -> (r: &Position)
        ensures
            r@ == self.pos(),
    {
        &self.position
    }

    /// The history, which ends with the position reached.
    pub fn history(&self) -> (r: &History)
        ensures
            r.wf(),
            r.hashes().len() > 0,
            r.next_ply() == self.pos().1 + 1,
            forall|i: int| 0 <= i < r.cuts().len() ==> #[trigger] r.cuts()[i] < r.next_ply(),
    {
        proof {
            use_type_invariant(self);
        }
        &self.history
    }

    /// The line after a move, with the position reached recorded (after a setup, as
    /// irreversible). A move that cannot be played leaves the line as it is.
    pub fn after(&self, mov: Move) -> (r: GameLine)
        ensures
            match mov {
                Move::Setup(m) => if spec_setup_legal(self.pos(), m) {
                    r.pos() == crate::position::spec_setup_result(self.pos(), m)
                } else {
                    r.pos() == self.pos()
                },
                Move::Regular(m) => match spec_regular_step(self.pos(), m) {
                    Some(t) => r.pos() == t,
                    None => r.pos() == self.pos(),
                },
            },
    {
        proof {
            use_type_invariant(self);
        }
        let next = match self.position.make_move(mov) {
            Ok(p) => p,
            Err(_) => {
                return GameLine { position: self.position, history: self.history.copy() };
            },
        };
        next.check_valid();
        let mut history = self.history.copy();
        match mov {
            Move::Setup(_) => {
                history.push_position_irreversible(&next);
            },
            Move::Regular(_) => {
                history.push_position(&next);
            },
        }
        GameLine { position: next, history }
    }
}

/// The engine's player: the book for the setups, the search for the game, with deadlines
/// from the time allocation; it follows the game in its own line.
pub struct MainPlayer<'a> {
    search: Search<'a>,
    book: OpeningBook,
    time: TimeAllocation,
    red_setup: Option<SetupMove>,
    line: GameLine,
}

impl<'a> MainPlayer<'a> {
    /// The opening book the player follows.
    pub closed spec fn book(self) -> OpeningBook {
        self.book
    }

    /// Red's setup, once it was played.
    pub closed spec fn red_setup(self) -> Option<SetupMove> {
        self.red_setup
    }

    /// The search engine is well formed.
    #[verifier::type_invariant]
    spec fn inv(self) -> bool {
        self.search.wf()
    }

    /// A player at the start of a game.
    pub fn new(search: Search<'a>, book: OpeningBook, time: TimeAllocation) -> (r: MainPlayer<'a>)
        requires
            search.wf(),
    {
        MainPlayer { search, book, time, red_setup: None, line: GameLine::new() }
    }

    /// Follows a move of the game; red's setup is remembered.
    pub fn move_made(&mut self, mov: Move) {
        proof {
            use_type_invariant(&*self);
        }
        let legal = self.line.position().make_move(mov).is_ok();
        if legal {
            match mov {
                Move::Setup(m) => {
                    if m.color == Color::Red {
                        self.red_setup = Some(m);
                    }
                },
                Move::Regular(_) => {},
            }
        }
        let line = self.line.after(mov);
        self.line = line;
    }

    /// The deadlines for a move at `ply`, when the timer runs and the allocation covers
    /// the ply.
    fn deadlines(&self, ply: u8, timer: &Timer) -> Option<Deadlines> {
        if !timer.is_running() || ply as usize >= self.time.per_ply.len() {
            return None;
        }
        let fr = self.time.per_ply[ply as usize];
        let time_left = timer.get();
        let to_allocate = time_left.saturating_sub(self.time.margin);
        Some(Deadlines {
            hard: deadline_at(timer, time_left, to_allocate, fr[0]),
            soft: deadline_at(timer, time_left, to_allocate, fr[1]),
            start_next_depth: deadline_at(timer, time_left, to_allocate, fr[2]),
            panic_hard: deadline_at(timer, time_left, to_allocate, fr[3]),
            panic_soft: deadline_at(timer, time_left, to_allocate, fr[4]),
        })
    }

    /// The move to play in `position`: in the setup, the book's setup when it is legal,
    /// else the first arrangement of the pieces; in the game, the first move of the
    /// search's principal variation. The move is legal whenever a legal move exists.
    pub fn choose_move(&mut self, position: &Position, deadlines: Option<Deadlines>) -> (m: Move)
        ensures
            position@.0 == Stage::Setup ==> (m matches Move::Setup(s) && spec_setup_legal(position@, s)),
            (position@.0 == Stage::Regular && exists|x: RegularMove| spec_regular_step(position@, x) is Some) ==> (
            m matches Move::Regular(x) && spec_regular_step(position@, x) is Some),
            final(self).book() == old(self).book(),
            final(self).red_setup() == old(self).red_setup(),
            (position@.0 == Stage::Setup && spec_to_move(position@.1) == Color::Red) ==> (old(self).book().red is Some
                && spec_setup_legal(position@, old(self).book().red->0) ==> m == Move::Setup(old(self).book().red->0)),
            (position@.0 == Stage::Setup && spec_to_move(position@.1) == Color::Blue && old(self).red_setup() is Some)
                ==> forall|i: int|
                #![trigger old(self).book().blue_replies@[i]]
                0 <= i < old(self).book().blue_replies@.len() && is_first_reply(
                    old(self).book().blue_replies@,
                    old(self).red_setup()->0,
                    i,
                ) && spec_setup_legal(position@, old(self).book().blue_replies@[i].1) ==> m == Move::Setup(
                    old(self).book().blue_replies@[i].1,
                ),
    {
        proof {
            use_type_invariant(&*self);
        }
        // Take the engine out for the search, and put it back.
        let spare = Search::new(self.search.evaluator, self.search.params, crate::ttable::TTABLE_BUCKET_BYTES, crate::pvtable::PVTABLE_BUCKET_BYTES);
        let mut tmp = MainPlayer {
            search: spare,
            book: OpeningBook { red: None, blue_replies: Vec::new(), blue_candidates: Vec::new() },
            time: TimeAllocation { per_ply: Vec::new(), margin: 0 },
            red_setup: None,
            line: GameLine::new(),
        };
        std::mem::swap(self, &mut tmp);
        proof {
            use_type_invariant(&tmp);
        }
        let MainPlayer { mut search, book, time, red_setup, line } = tmp;
        let m = choose_with(&mut search, &book, red_setup, &line, position, deadlines);
        *self = MainPlayer { search, book, time, red_setup, line };
        m
    }
}

/// Two setups of the same color with the same pieces.
pub open spec fn same_setup_spec(a: SetupMove, b: SetupMove) -> bool {
    a.color == b.color && a.pieces@ == b.pieces@
}

/// Entry `i` of the book's blue replies is the first for red's setup `red`.
pub open spec fn is_first_reply(replies: Seq<(SetupMove, SetupMove)>, red: SetupMove, i: int) -> bool {
    &&& same_setup_spec(replies[i].0, red)
    &&& forall|j: int| 0 <= j < i ==> !same_setup_spec(#[trigger] replies[j].0, red)
}

/// The choice of `MainPlayer::choose_move`, with the engine's parts.
fn choose_with(
    search: &mut Search,
    book: &OpeningBook,
    red_setup: Option<SetupMove>,
    line: &GameLine,
    position: &Position,
    deadlines: Option<Deadlines>,
) -> (m: Move)
    requires
        old(search).wf(),
    ensures
        final(search).wf(),
        final(search).evaluator == old(search).evaluator,
        final(search).params == old(search).params,
        position@.0 == Stage::Setup ==> (m matches Move::Setup(s) && spec_setup_legal(position@, s)),
        (position@.0 == Stage::Regular && exists|x: RegularMove| spec_regular_step(position@, x) is Some) ==> (
        m matches Move::Regular(x) && spec_regular_step(position@, x) is Some),
        (position@.0 == Stage::Setup && spec_to_move(position@.1) == Color::Red) ==> (book.red is Some
            && spec_setup_legal(position@, book.red->0) ==> m == Move::Setup(book.red->0)),
        (position@.0 == Stage::Setup && spec_to_move(position@.1) == Color::Blue && red_setup is Some)
            ==> forall|i: int|
            #![trigger book.blue_replies@[i]]
            0 <= i < book.blue_replies@.len() && is_first_reply(book.blue_replies@, red_setup->0, i) && spec_setup_legal(
                position@,
                book.blue_replies@[i].1,
            ) ==> m == Move::Setup(book.blue_replies@[i].1),
{
    match position.stage() {
        Stage::Setup => {
            let me = position.to_move();
            let book_move = match me {
                Color::Red => book.red,
                Color::Blue => {
                    let mut found: Option<SetupMove> = None;
                    match red_setup {
                        Some(red) => {
                            let ghost replies = book.blue_replies@;
                            let mut i: usize = 0;
                            while i < book.blue_replies.len()
                                invariant_except_break
                                    i <= replies.len(),
                                    replies == book.blue_replies@,
                                    found is None,
                                    forall|j: int| 0 <= j < i ==> !same_setup_spec(#[trigger] replies[j].0, red),
                                ensures
                                    found is None ==> forall|j: int|
                                        0 <= j < replies.len() ==> !same_setup_spec(#[trigger] replies[j].0, red),
                                    found matches Some(b) ==> exists|g: int|
                                        0 <= g < replies.len() && is_first_reply(replies, red, g) && b
                                            == #[trigger] replies[g].1,
                                decreases book.blue_replies@.len() - i,
                            {
                                let (r, b) = book.blue_replies[i];
                                if same_setup(&r, &red) {
                                    found = Some(b);
                                    proof {
                                        assert(is_first_reply(replies, red, i as int));
                                    }
                                    break;
                                }
                                i += 1;
                            }
                            proof {
                                if let Some(b) = found {
                                    let g = choose|g: int|
                                        0 <= g < replies.len() && is_first_reply(replies, red, g) && b
                                            == #[trigger] replies[g].1;
                                    assert forall|x: int|
                                        0 <= x < replies.len() && is_first_reply(replies, red, x) implies x == g by {
                                        if x < g {
                                            assert(!same_setup_spec(replies[x].0, red));
                                        } else if g < x {
                                            assert(!same_setup_spec(replies[g].0, red));
                                        }
                                    }
                                }
                            }
                        },
                        None => {},
                    }
                    found
                },
            };
            match book_move {
                Some(b) => {
                    if position.make_setup_move(b).is_ok() {
                        return Move::Setup(b);
                    }
                },
                None => {},
            }
            // Blue with no book reply searches for one.
            if me == Color::Blue {
                match red_setup {
                    Some(red) => {
                        if red.color == Color::Red && red.validate_pieces().is_ok() {
                            let result = search.search_blue_setup(red, None, deadlines, &book.blue_candidates);
                            if position.make_setup_move(result.mov).is_ok() {
                                return Move::Setup(result.mov);
                            }
                        }
                    },
                    None => {},
                }
            }
            let mut it = setup_moves(me);
            match it.next() {
                Some(first) => {
                    proof {
                        lemma_first_setup_valid();
                        assert(first.pieces@ == first_setup_pieces());
                    }
                    Move::Setup(first)
                },
                None => no_move(),
            }
        },
        Stage::Regular => {
            position.check_valid();
            let fresh = History::new_from_position(position);
            let own = line.history();
            let result = if own.ply() == position.ply() + 1 {
                search.search(position, None, deadlines, None, false, own)
            } else {
                search.search(position, None, deadlines, None, false, &fresh)
            };
            if result.pv.moves.len() > 0 {
                let x = *result.pv.moves.get(0);
                Move::Regular(x)
            } else {
                no_move()
            }
        },
        Stage::End(_) => no_move(),
    }
}

impl<'a> Player for MainPlayer<'a> {
    fn opponent_move(&mut self, position: &Position, mov: Move, timer: &Timer) {
        self.move_made(mov);
    }

    fn make_move(&mut self, position: &Position, timer: &Timer) -> Move {
        let deadlines = self.deadlines(position.ply(), timer);
        let m = self.choose_move(position, deadlines);
        self.move_made(m);
        m
    }
}

/// Creates engine players that share an evaluator, tuning values, table sizes, book and
/// time allocation.
pub struct MainPlayerFactory<'a> {
    evaluator: &'a LinearEvaluator,
    params: SearchParams,
    ttable_size: usize,
    pvtable_size: usize,
    book: OpeningBook,
    time: TimeAllocation,
}

impl<'a> MainPlayerFactory<'a> {
    /// What `Search::new` needs: a weight per feature, tables of at least one bucket, and
    /// a moderate contempt.
    #[verifier::type_invariant]
    spec fn inv(self) -> bool {
        &&& self.evaluator.weights().len() == crate::wps_features::WPS_COUNT
        &&& self.ttable_size / crate::ttable::TTABLE_BUCKET_BYTES > 0
        &&& self.pvtable_size / crate::pvtable::PVTABLE_BUCKET_BYTES > 0
        &&& -1000000 <= self.params.contempt <= 1000000
    }

    /// A factory of players with these settings.
    pub fn new(
        evaluator: &'a LinearEvaluator,
        params: SearchParams,
        ttable_size: usize,
        pvtable_size: usize,
        book: OpeningBook,
        time: TimeAllocation,
    ) -> (r: MainPlayerFactory<'a>)
        requires
            evaluator.weights().len() == crate::wps_features::WPS_COUNT,
            ttable_size / crate::ttable::TTABLE_BUCKET_BYTES > 0,
            pvtable_size / crate::pvtable::PVTABLE_BUCKET_BYTES > 0,
            -1000000 <= params.contempt <= 1000000,
    {
        MainPlayerFactory { evaluator, params, ttable_size, pvtable_size, book, time }
    }
}

impl<'a> PlayerFactory for MainPlayerFactory<'a> {
    type Output = MainPlayer<'a>;

    fn create(&self, game_id: &str, color: Color, opening: &[Move], time_limit: Option<u32>) -> MainPlayer<'a> {
        proof {
            use_type_invariant(self);
        }
        let search = Search::new(self.evaluator, self.params, self.ttable_size, self.pvtable_size);
        let mut player = MainPlayer::new(search, self.book.clone(), self.time.clone());
        let mut i: usize = 0;
        while i < opening.len()
            decreases opening@.len() - i,
        {
            player.move_made(opening[i]);
            i += 1;
        }
        player
    }
}

} // verus!
