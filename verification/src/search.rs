use crate::clock::deadline_passed;
use crate::color::Color;
use crate::constants::{Depth, Eval, Ply, CHECK_TIMEOUT_NODES, NUM_KILLER_MOVES, ONE_PLY, PLY_DRAW};
use crate::eval::{weight_sum, EvaluatedPosition};
use crate::wps_features::spec_all_features;
use crate::history::{lemma_cut_no_repeat, lemma_push_repeats, History};
use crate::linear_eval::LinearEvaluator;
use crate::movegen;
use crate::movegen::spec_in_check;
use crate::moves::{RegularMove, SetupMove};
use crate::piece::Piece;
use crate::position::{
    spec_has_wazir, spec_position_hash, spec_regular_step, spec_setup_result, spec_to_move, Position, PositionView,
    Stage,
};
use crate::pvtable::PVTable;
use crate::score::{spec_pack, Score, ScoreExpanded, INFINITE, WIN_MAX_PLY};
use crate::ttable::{TTable, TTableEntry, TTableScore, TTableScoreType};
use crate::variation::{ExtendableVariation, LongVariation, NonEmptyVariation, Variation};
use vstd::prelude::*;

verus! {

/// When a search must stop: at once, when convenient, before another depth, and the same
/// two when the evaluation drops.
pub struct Deadlines {
    pub hard: std::time::Instant,
    pub soft: std::time::Instant,
    pub start_next_depth: std::time::Instant,
    pub panic_hard: std::time::Instant,
    pub panic_soft: std::time::Instant,
}

/// A move with its score.
#[derive(Debug, Clone, Copy)]
pub struct ScoredMove {
    pub mov: RegularMove,
    pub score: Score,
}

/// The outcome of a search: the score, the principal variation, the best root moves (for
/// searches of several moves), and statistics.
pub struct SearchResult {
    pub score: Score,
    pub pv: LongVariation,
    pub top_moves: Vec<ScoredMove>,
    pub depth: Depth,
    pub root_moves_considered: usize,
    pub num_root_moves: usize,
    pub nodes: u64,
}

/// The outcome of a search for blue's setup: the setup chosen, its score and principal
/// variation, and statistics.
pub struct SearchResultBlueSetup {
    pub score: Score,
    pub mov: SetupMove,
    pub pv: LongVariation,
    pub depth: Depth,
    pub root_moves_considered: usize,
    pub num_root_moves: usize,
    pub nodes: u64,
}

/// The search ran out of time.
#[derive(Debug, Clone, Copy)]
pub struct Timeout;

/// What a node of the search is expected to be: on the principal variation, one that
/// will fail high, or one where every move will fail low.
#[derive(Debug, Clone, Copy, PartialEq, Eq, Structural)]
pub enum NodeType {
    PV,
    Cut,
    All,
}

/// The tuning values of the search, in evaluation units where they are margins.
#[derive(Debug, Clone, Copy)]
pub struct SearchParams {
    /// Shallowest depth at which the transposition table is used.
    pub min_depth_ttable: Depth,
    /// Moves searched in full before later ones are first tried at reduced depth.
    pub late_move_reduction_start: usize,
    /// How far below alpha the evaluation must be for a quiet move to be futile.
    pub futility_margin: Eval,
    /// How much the side that moves first at the root values a draw below zero.
    pub contempt: Eval,
    /// How far the best root score may fall below that of the last depth before the
    /// search takes the longer panic deadlines.
    pub panic_eval_threshold: Eval,
}

/// What a node returns: its score, the depth it stands for, its principal variation, and
/// the earliest ply of a repetition that the score rests on.
pub struct SearchResultInternal {
    pub score: Score,
    pub depth: Depth,
    pub pv: LongVariation,
    pub repetition_ply: Ply,
}

/// The position at the start of a game.
pub open spec fn spec_initial_position() -> PositionView {
    (Stage::Setup, 0nat, crate::board::spec_empty_board(), crate::captured::spec_no_captures())
}

/// The moves follow one another legally from `s`.
pub open spec fn spec_line_legal(s: PositionView, moves: Seq<RegularMove>) -> bool
    decreases moves.len(),
{
    if moves.len() == 0 {
        true
    } else {
        match spec_regular_step(s, moves[0]) {
            Some(t) => spec_line_legal(t, moves.drop_first()),
            None => false,
        }
    }
}

/// A legal line cut short is still legal.
pub proof fn lemma_line_prefix(s: PositionView, moves: Seq<RegularMove>, k: int)
    requires
        spec_line_legal(s, moves),
        0 <= k <= moves.len(),
    ensures
        spec_line_legal(s, moves.take(k)),
    decreases moves.len(),
{
    if k > 0 {
        let t = spec_regular_step(s, moves[0])->Some_0;
        lemma_line_prefix(t, moves.drop_first(), k - 1);
        assert(moves.take(k).drop_first() =~= moves.drop_first().take(k - 1));
    }
}

/// A legal move followed by a legal line from the position it leads to is a legal line,
/// and so is any start of it.
proof fn lemma_line_cons(s: PositionView, m: RegularMove, rest: Seq<RegularMove>, k: int)
    requires
        spec_regular_step(s, m) is Some,
        spec_line_legal(spec_regular_step(s, m)->Some_0, rest),
        0 <= k <= rest.len() + 1,
    ensures
        spec_line_legal(s, seq![m].add(rest).take(k)),
{
    let v = seq![m].add(rest);
    assert(v.drop_first() =~= rest);
    assert(v[0] == m);
    lemma_line_prefix(s, v, k);
}

/// The score of a loss in `plies` plies from the start of the game.
fn loss_score(plies: Ply) -> (r: Score)
    ensures
        r == spec_pack(ScoreExpanded::Loss(plies)),
{
    Score::from_expanded(ScoreExpanded::Loss(plies))
}

/// The score of a win in `plies` plies from the start of the game.
fn win_score(plies: Ply) -> (r: Score)
    ensures
        r == spec_pack(ScoreExpanded::Win(plies)),
{
    Score::from_expanded(ScoreExpanded::Win(plies))
}

/// A node result with no moves, standing for every depth.
fn leaf(score: Score, depth: Depth) -> (r: SearchResultInternal)
    ensures
        r.score == score,
        r.depth == depth,
        r.pv.moves@ == Seq::<RegularMove>::empty(),
        r.pv.wf(),
        r.repetition_ply == 255,
{
    SearchResultInternal { score, depth, pv: LongVariation::empty_truncated(), repetition_ply: 255 }
}

/// The larger of two scores.
fn max_score(a: Score, b: Score) -> (r: Score)
    ensures
        r.0 == if a.0 >= b.0 { a.0 } else { b.0 },
{
    if a.0 >= b.0 {
        a
    } else {
        b
    }
}

/// The same recorded line.
pub open spec fn same_history(a: History, b: History) -> bool {
    &&& a.start() == b.start()
    &&& a.hashes() == b.hashes()
    &&& a.cuts() == b.cuts()
}

/// Every score lies within `[-INFINITE, INFINITE]` once packed.
proof fn lemma_pack_range(x: ScoreExpanded)
    ensures
        -INFINITE <= spec_pack(x).0 <= INFINITE,
{
}

/// Whether the moves of `moves` from index `i` on follow one another legally from `p`.
fn line_legal_from(p: &Position, moves: &LongVariation, i: usize) -> (r: bool)
    requires
        i <= moves.moves@.len(),
    ensures
        r == spec_line_legal(p@, moves.moves@.skip(i as int)),
    decreases moves.moves@.len() - i,
{
    let n = moves.moves.len();
    if i == n {
        proof {
            assert(moves.moves@.skip(i as int).len() == 0);
        }
        return true;
    }
    let m = *moves.moves.get(i);
    proof {
        assert(moves.moves@.skip(i as int)[0] == m);
        assert(moves.moves@.skip(i as int).drop_first() =~= moves.moves@.skip(i + 1));
    }
    match p.make_regular_move(m) {
        Ok(q) => line_legal_from(&q, moves, i + 1),
        Err(_) => false,
    }
}

/// A candidate of a node's move loop: a move (an extra one, such as the table's or a
/// killer, may be illegal or repeat a later one), or the point from which quiet moves may
/// be futile.
enum Candidate {
    Move { mov: RegularMove, extra: bool },
    Futility,
}

/// The candidates of a node: out of check, the evasions after the table's move; else the
/// table's move, captures (checks first), killers, quiet checks, the futility point, then
/// the other quiet moves.
fn generate_move_candidates(
    position: &Position,
    in_check: bool,
    tt_move: Option<RegularMove>,
    killers: [Option<RegularMove>; 2],
) -> (r: Vec<Candidate>)
    requires
        position@.0 == Stage::Regular,
        in_check == spec_in_check(position@, spec_to_move(position@.1)),
        spec_has_wazir(position@, spec_to_move(position@.1).spec_opposite()),
{
    let mut r: Vec<Candidate> = Vec::new();
    match tt_move {
        Some(m) => r.push(Candidate::Move { mov: m, extra: true }),
        None => {},
    }
    if in_check {
        push_moves(&mut r, movegen::check_evasions(position));
        return r;
    }
    push_moves(&mut r, movegen::captures_checks(position));
    push_moves(&mut r, movegen::captures_non_checks(position));
    let mut k: usize = 0;
    while k < NUM_KILLER_MOVES
        decreases NUM_KILLER_MOVES - k,
    {
        match killers[k] {
            Some(m) => r.push(Candidate::Move { mov: m, extra: true }),
            None => {},
        }
        k += 1;
    }
    push_moves(&mut r, movegen::jumps_checks(position));
    push_moves(&mut r, movegen::drops_checks(position));
    r.push(Candidate::Futility);
    push_moves(&mut r, movegen::jumps_check_threats(position));
    push_moves(&mut r, movegen::jumps_boring(position));
    push_moves(&mut r, movegen::drops_check_threats(position));
    push_moves(&mut r, movegen::drops_boring(position));
    r
}

/// Appends the moves as ordinary candidates.
fn push_moves(r: &mut Vec<Candidate>, moves: Vec<RegularMove>) {
    let mut i: usize = 0;
    while i < moves.len()
        decreases moves.len() - i,
    {
        r.push(Candidate::Move { mov: moves[i], extra: false });
        i += 1;
    }
}

/// `v` holds `m`.
fn contains_move(v: &Vec<RegularMove>, m: RegularMove) -> (r: bool)
    ensures
        r == v@.contains(m),
{
    let mut i: usize = 0;
    while i < v.len()
        invariant
            i <= v@.len(),
            forall|j: int| 0 <= j < i ==> v@[j] != m,
        decreases v@.len() - i,
    {
        if v[i] == m {
            return true;
        }
        i += 1;
    }
    false
}

/// A move at the root, with its score and whether it comes after the futility point.
#[derive(Debug, Clone, Copy)]
pub struct RootMove {
    pub mov: RegularMove,
    pub score: Score,
    pub futile: bool,
}

/// The state of a search at the root: the position, its moves (best first), the depth
/// completed, how many moves were searched at it and how many have exact scores, the
/// principal variation, and the limits.
pub struct RootState {
    pub root: Position,
    pub root_moves: Vec<RootMove>,
    pub depth: Depth,
    pub root_moves_considered: usize,
    pub root_moves_exact_score: usize,
    pub pv: LongVariation,
    pub max_depth: Depth,
    pub deadlines: Option<Deadlines>,
    pub multi_move_threshold: Option<Eval>,
}

impl RootState {
    /// Every root move is legal and scored within range, the principal variation is a
    /// legal line from the root, and the counts stay within the moves.
    pub open spec fn wf(&self) -> bool {
        &&& forall|i: int| 0 <= i < self.root_moves@.len() ==> spec_regular_step(self.root@, #[trigger] self.root_moves@[i].mov) is Some
        &&& forall|i: int| 0 <= i < self.root_moves@.len() ==> -INFINITE <= #[trigger] self.root_moves@[i].score.0 <= INFINITE
        &&& self.pv.wf()
        &&& spec_line_legal(self.root@, self.pv.moves@)
        &&& self.root_moves_exact_score <= self.root_moves_considered <= self.root_moves@.len()
        &&& self.multi_move_threshold matches Some(t) ==> 0 <= t <= INFINITE
    }

    /// Sets the score of the `k`-th root move.
    fn set_score(&mut self, k: usize, score: Score)
        requires
            old(self).wf(),
            k < old(self).root_moves@.len(),
            -INFINITE <= score.0 <= INFINITE,
        ensures
            final(self).wf(),
            final(self).root == old(self).root,
            final(self).root_moves@.len() == old(self).root_moves@.len(),
            final(self).root_moves@[k as int].score == score,
            forall|i: int| 0 <= i < old(self).root_moves@.len() && i != k ==> #[trigger] final(self).root_moves@[i] == old(self).root_moves@[i],
            final(self).root_moves@[k as int].mov == old(self).root_moves@[k as int].mov,
            final(self).pv == old(self).pv,
            final(self).depth == old(self).depth,
            final(self).root_moves_considered == old(self).root_moves_considered,
            final(self).root_moves_exact_score == old(self).root_moves_exact_score,
            final(self).deadlines == old(self).deadlines,
            final(self).max_depth == old(self).max_depth,
            final(self).multi_move_threshold == old(self).multi_move_threshold,
    {
        let mut m = self.root_moves[k];
        m.score = score;
        self.root_moves.set(k, m);
    }

    /// The principal variation becomes `mov` followed by `rest`.
    fn set_pv(&mut self, mov: RegularMove, rest: LongVariation)
        requires
            old(self).wf(),
            rest.wf(),
            spec_regular_step(old(self).root@, mov) matches Some(t) && spec_line_legal(t, rest.moves@),
        ensures
            final(self).wf(),
            final(self).pv.moves@.len() > 0,
            final(self).pv.moves@[0] == mov,
            final(self).root == old(self).root,
            final(self).root_moves == old(self).root_moves,
            final(self).depth == old(self).depth,
            final(self).root_moves_considered == old(self).root_moves_considered,
            final(self).root_moves_exact_score == old(self).root_moves_exact_score,
            final(self).deadlines == old(self).deadlines,
            final(self).max_depth == old(self).max_depth,
            final(self).multi_move_threshold == old(self).multi_move_threshold,
    {
        proof {
            lemma_line_cons(self.root@, mov, rest.moves@, if rest.moves@.len() + 1 <= 100 {
                rest.moves@.len() + 1int
            } else {
                100int
            });
        }
        self.pv = rest.add_front(mov);
    }

    /// Moves the root move at `hi` to index `lo`, the ones between one place on.
    fn rotate_to_front(&mut self, lo: usize, hi: usize)
        requires
            old(self).wf(),
            lo <= hi < old(self).root_moves@.len(),
        ensures
            final(self).wf(),
            final(self).root == old(self).root,
            final(self).root_moves@.len() == old(self).root_moves@.len(),
            final(self).root_moves@[lo as int] == old(self).root_moves@[hi as int],
            forall|i: int| lo < i <= hi ==> #[trigger] final(self).root_moves@[i] == old(self).root_moves@[i - 1],
            forall|i: int|
                0 <= i < old(self).root_moves@.len() && (i < lo || i > hi) ==> #[trigger] final(self).root_moves@[i]
                    == old(self).root_moves@[i],
            final(self).pv == old(self).pv,
            final(self).depth == old(self).depth,
            final(self).root_moves_considered == old(self).root_moves_considered,
            final(self).root_moves_exact_score == old(self).root_moves_exact_score,
            final(self).deadlines == old(self).deadlines,
            final(self).max_depth == old(self).max_depth,
            final(self).multi_move_threshold == old(self).multi_move_threshold,
    {
        let moved = self.root_moves[hi];
        let mut j = hi;
        while j > lo
            invariant
                self.wf(),
                lo <= j <= hi,
                hi < self.root_moves@.len(),
                self.root == old(self).root,
                self.root_moves@.len() == old(self).root_moves@.len(),
                self.pv == old(self).pv,
                self.depth == old(self).depth,
                self.root_moves_considered == old(self).root_moves_considered,
                self.root_moves_exact_score == old(self).root_moves_exact_score,
                self.deadlines == old(self).deadlines,
                self.max_depth == old(self).max_depth,
                self.multi_move_threshold == old(self).multi_move_threshold,
                moved == old(self).root_moves@[hi as int],
                forall|i: int| j < i <= hi ==> #[trigger] self.root_moves@[i] == old(self).root_moves@[i - 1],
                forall|i: int|
                    0 <= i < old(self).root_moves@.len() && (i <= j || i > hi) ==> #[trigger] self.root_moves@[i]
                        == old(self).root_moves@[i],
            decreases j,
        {
            let prev = self.root_moves[j - 1];
            self.root_moves.set(j, prev);
            j -= 1;
        }
        self.root_moves.set(lo, moved);
    }

    /// Adds `m` as a root move when it is legal at the root.
    fn push_if_legal(&mut self, m: RegularMove, score: Score, futile: bool) -> (r: bool)
        requires
            old(self).wf(),
            -INFINITE <= score.0 <= INFINITE,
        ensures
            final(self).wf(),
            r == (spec_regular_step(old(self).root@, m) is Some),
            final(self).root_moves@ == if r {
                old(self).root_moves@.push(RootMove { mov: m, score, futile })
            } else {
                old(self).root_moves@
            },
            final(self).root == old(self).root,
            final(self).pv == old(self).pv,
            final(self).depth == old(self).depth,
            final(self).root_moves_considered == old(self).root_moves_considered,
            final(self).root_moves_exact_score == old(self).root_moves_exact_score,
            final(self).deadlines == old(self).deadlines,
            final(self).max_depth == old(self).max_depth,
            final(self).multi_move_threshold == old(self).multi_move_threshold,
    {
        if self.root.make_regular_move(m).is_ok() {
            self.root_moves.push(RootMove { mov: m, score, futile });
            true
        } else {
            false
        }
    }

    /// Sorts the root moves with exact scores after the first by score, best first
    /// (a stable insertion sort).
    fn sort_root_moves(&mut self, Ghost(keep): Ghost<spec_fn(RootMove) -> bool>)
        requires
            old(self).wf(),
            forall|x: int| 0 <= x < old(self).root_moves@.len() ==> keep(#[trigger] old(self).root_moves@[x]),
        ensures
            final(self).wf(),
            old(self).root_moves@.len() > 0 ==> final(self).root_moves@[0] == old(self).root_moves@[0],
            forall|x: int| 0 <= x < final(self).root_moves@.len() ==> keep(#[trigger] final(self).root_moves@[x]),
            final(self).root == old(self).root,
            final(self).root_moves@.len() == old(self).root_moves@.len(),
            final(self).pv == old(self).pv,
            final(self).depth == old(self).depth,
            final(self).root_moves_considered == old(self).root_moves_considered,
            final(self).root_moves_exact_score == old(self).root_moves_exact_score,
            final(self).deadlines == old(self).deadlines,
            final(self).max_depth == old(self).max_depth,
            final(self).multi_move_threshold == old(self).multi_move_threshold,
    {
        let n = self.root_moves_exact_score;
        let mut i: usize = 2;
        while i < n
            invariant
                2 <= i,
                self.wf(),
                n == self.root_moves_exact_score,
                old(self).root_moves@.len() > 0 ==> self.root_moves@[0] == old(self).root_moves@[0],
                forall|x: int| 0 <= x < self.root_moves@.len() ==> keep(#[trigger] self.root_moves@[x]),
                self.root == old(self).root,
                self.root_moves@.len() == old(self).root_moves@.len(),
                self.pv == old(self).pv,
                self.depth == old(self).depth,
                self.root_moves_considered == old(self).root_moves_considered,
                self.root_moves_exact_score == old(self).root_moves_exact_score,
                self.deadlines == old(self).deadlines,
                self.max_depth == old(self).max_depth,
                self.multi_move_threshold == old(self).multi_move_threshold,
            decreases n - i,
        {
            let mut j = i;
            while j > 1 && self.root_moves[j - 1].score.0 < self.root_moves[j].score.0
                invariant
                    self.wf(),
                    1 <= j <= i < n,
                    n == self.root_moves_exact_score,
                    old(self).root_moves@.len() > 0 ==> self.root_moves@[0] == old(self).root_moves@[0],
                    forall|x: int| 0 <= x < self.root_moves@.len() ==> keep(#[trigger] self.root_moves@[x]),
                    self.root == old(self).root,
                    self.root_moves@.len() == old(self).root_moves@.len(),
                    self.pv == old(self).pv,
                    self.depth == old(self).depth,
                    self.root_moves_considered == old(self).root_moves_considered,
                    self.root_moves_exact_score == old(self).root_moves_exact_score,
                    self.deadlines == old(self).deadlines,
                    self.max_depth == old(self).max_depth,
                    self.multi_move_threshold == old(self).multi_move_threshold,
                decreases j,
            {
                let a = self.root_moves[j - 1];
                let b = self.root_moves[j];
                proof {
                    assert(keep(a) && keep(b));
                }
                self.root_moves.set(j - 1, b);
                self.root_moves.set(j, a);
                j -= 1;
            }
            i += 1;
        }
    }
}

/// The state of the search for blue's setup: the setups to choose from (best first), the
/// score of the best and the principal variation after it, the depth completed, how many
/// setups were searched at it, and the limits.
pub struct BlueSetupState {
    pub moves: Vec<SetupMove>,
    pub score: Score,
    pub pv: LongVariation,
    pub depth: Depth,
    pub considered: usize,
    pub max_depth: Depth,
    pub deadlines: Option<Deadlines>,
}

impl BlueSetupState {
    /// Every setup is a legal blue setup in `s`, the score is within range, the variation
    /// is well formed and the count within the setups.
    pub open spec fn wf(&self, s: PositionView) -> bool {
        &&& forall|i: int| 0 <= i < self.moves@.len() ==> crate::position::spec_setup_legal(s, #[trigger] self.moves@[i])
            && self.moves@[i].color == Color::Blue
        &&& -INFINITE <= self.score.0 <= INFINITE
        &&& self.pv.wf()
        &&& self.considered <= self.moves@.len()
    }

    /// Moves the setup at `k` to the front, the ones before it one place on.
    fn rotate_to_front(&mut self, k: usize)
        requires
            k < old(self).moves@.len(),
        ensures
            final(self).moves@.len() == old(self).moves@.len(),
            final(self).moves@[0] == old(self).moves@[k as int],
            forall|i: int| 0 <= i < final(self).moves@.len() ==> exists|j: int| 0 <= j < old(self).moves@.len() && #[trigger] final(self).moves@[i] == old(self).moves@[j],
            final(self).score == old(self).score,
            final(self).pv == old(self).pv,
            final(self).depth == old(self).depth,
            final(self).considered == old(self).considered,
            final(self).max_depth == old(self).max_depth,
            final(self).deadlines == old(self).deadlines,
    {
        let moved = self.moves[k];
        let mut j = k;
        while j > 0
            invariant
                j <= k < self.moves@.len(),
                self.moves@.len() == old(self).moves@.len(),
                moved == old(self).moves@[k as int],
                forall|i: int| 0 <= i < self.moves@.len() ==> exists|t: int| 0 <= t < old(self).moves@.len() && #[trigger] self.moves@[i] == old(self).moves@[t],
                self.score == old(self).score,
                self.pv == old(self).pv,
                self.depth == old(self).depth,
                self.considered == old(self).considered,
                self.max_depth == old(self).max_depth,
                self.deadlines == old(self).deadlines,
            decreases j,
        {
            let prev = self.moves[j - 1];
            self.moves.set(j, prev);
            j -= 1;
        }
        self.moves.set(0, moved);
    }
}

/// A search in progress: the evaluator, the tuning values, the root, the clock, the line
/// played so far, and what the search has learned.
pub struct SearchInstance<'a> {
    pub evaluator: &'a LinearEvaluator,
    pub params: SearchParams,
    pub root_ply: Ply,
    pub red_contempt: Eval,
    pub hard_deadline: Option<std::time::Instant>,
    pub nodes: u64,
    pub history: History,
    pub ttable: TTable,
    pub pvtable: PVTable,
    pub killer_moves: Vec<[Option<RegularMove>; 2]>,
}

/// The static evaluation of a position for the side to move under an evaluator's weights:
/// its features' weights less the other side's, plus the bonus of the side to move.
pub open spec fn spec_static_eval(w: Seq<i16>, to_move_weight: i16, s: PositionView) -> int {
    let me = spec_to_move(s.1);
    weight_sum(w, spec_all_features(s, me)) - weight_sum(w, spec_all_features(s, me.spec_opposite()))
        + to_move_weight
}

/// The score a side to move at ply `ply` gets by standing pat in a position evaluated
/// `eval`, with contempt `red_contempt` for red (and its opposite for blue).
pub open spec fn spec_stand_pat_score(eval: int, red_contempt: int, ply: nat) -> int {
    let contempt = match spec_to_move(ply) {
        Color::Red => red_contempt,
        Color::Blue => -red_contempt,
    };
    spec_pack(ScoreExpanded::Eval((eval + contempt) as i32)).0 as int
}

/// The stand-pat score of a position: its static evaluation plus the contempt of the side
/// to move, as a score.
pub open spec fn spec_stand_pat(w: Seq<i16>, to_move_weight: i16, red_contempt: int, s: PositionView) -> int {
    spec_stand_pat_score(spec_static_eval(w, to_move_weight, s), red_contempt, s.1)
}

/// A position of the game whose side to move is not in check and can still win before
/// the game is drawn: one where that side may stand pat.
pub open spec fn spec_quiet(s: PositionView) -> bool {
    &&& s.0 == Stage::Regular
    &&& !spec_in_check(s, spec_to_move(s.1))
    &&& s.1 + 3 <= PLY_DRAW
}

/// What a depth-one search can say of the score of a root move, from the side to move at
/// `root`: the opponent, to move after it, can at least stand pat, so the move is worth
/// at most the opposite of the opponent's stand-pat score (when the opponent may stand pat
/// and the position after it repeats nothing in `h`).
pub open spec fn root_move_bounded(
    root: PositionView,
    w: Seq<i16>,
    to_move_weight: i16,
    red_contempt: int,
    h: History,
    m: RootMove,
) -> bool {
    let t = spec_regular_step(root, m.mov)->Some_0;
    (spec_quiet(t) && !h.repeats_after(spec_position_hash(t))) ==> m.score.0 <= -spec_stand_pat(
        w,
        to_move_weight,
        red_contempt,
        t,
    )
}

/// What a depth-one search can say of the score kept for blue's setup `m` after red's
/// setup at `s`: red, to move after it, can at least stand pat, so the setup is worth at
/// most the opposite of red's stand-pat score (when red may stand pat).
pub open spec fn setup_bounded(
    s: PositionView,
    w: Seq<i16>,
    to_move_weight: i16,
    red_contempt: int,
    m: SetupMove,
    score: Score,
) -> bool {
    let t = spec_setup_result(s, m);
    spec_quiet(t) ==> score.0 <= -spec_stand_pat(w, to_move_weight, red_contempt, t)
}

/// The smaller of two integers.
pub open spec fn min_int(a: int, b: int) -> int {
    if a <= b {
        a
    } else {
        b
    }
}

/// The evaluation for the side to move, from the sums of an evaluated position.
pub open spec fn spec_eval(e: EvaluatedPosition) -> int {
    e.accumulator(spec_to_move(e.pos().1)) - e.accumulator(spec_to_move(e.pos().1).spec_opposite())
        + e.to_move_weight()
}

impl<'a> SearchInstance<'a> {
    /// The tables and the history are well formed, there is a killer slot for every ply,
    /// the contempt is moderate, and no cut of the history waits beyond its last position.
    pub open spec fn wf(&self) -> bool {
        &&& self.history.wf()
        &&& self.ttable.wf()
        &&& self.pvtable.wf()
        &&& self.killer_moves@.len() == PLY_DRAW + 1
        &&& -1000000 <= self.red_contempt <= 1000000
        &&& forall|i: int| 0 <= i < self.history.cuts().len() ==> #[trigger] self.history.cuts()[i] < self.history.next_ply()
    }

    /// The contempt of the side to move in a position at ply `ply`.
    pub open spec fn spec_contempt(&self, ply: nat) -> int {
        match spec_to_move(ply) {
            Color::Red => self.red_contempt as int,
            Color::Blue => -self.red_contempt,
        }
    }

    /// Counts a node; every `CHECK_TIMEOUT_NODES` nodes, gives up when the hard deadline
    /// has passed.
    pub fn new_node(&mut self) -> (r: Result<(), Timeout>)
        ensures
            final(self).nodes == (old(self).nodes + 1) % 0x1_0000_0000_0000_0000,
            final(self).history == old(self).history,
            final(self).ttable == old(self).ttable,
            final(self).pvtable == old(self).pvtable,
            final(self).killer_moves == old(self).killer_moves,
            final(self).red_contempt == old(self).red_contempt,
            final(self).params == old(self).params,
            final(self).root_ply == old(self).root_ply,
            final(self).hard_deadline == old(self).hard_deadline,
            final(self).evaluator == old(self).evaluator,
            r is Err ==> old(self).hard_deadline is Some && final(self).nodes % CHECK_TIMEOUT_NODES == 0,
    {
        self.nodes = self.nodes.wrapping_add(1);
        match &self.hard_deadline {
            Some(deadline) => {
                if self.nodes % CHECK_TIMEOUT_NODES == 0 && deadline_passed(deadline) {
                    return Err(Timeout);
                }
            },
            None => {},
        }
        Ok(())
    }

    /// Quiescence search: from `e`, with the window (`alpha`, `beta`), only captures are
    /// searched (all moves out of check when in check); a side not in check may stand
    /// pat on its evaluation plus its contempt.
    pub fn quiescence_search(&mut self, e: &EvaluatedPosition<'a>, alpha: Score, beta: Score) -> (r: Result<
        SearchResultInternal,
        Timeout,
    >)
        requires
            old(self).wf(),
            e.wf(),
            e.consistent(),
            -INFINITE <= alpha.0 <= INFINITE,
            -INFINITE <= beta.0 <= INFINITE,
        ensures
            final(self).wf(),
            final(self).history == old(self).history,
            final(self).evaluator == old(self).evaluator,
            final(self).params == old(self).params,
            final(self).root_ply == old(self).root_ply,
            final(self).red_contempt == old(self).red_contempt,
            final(self).hard_deadline == old(self).hard_deadline,
            r is Err ==> old(self).hard_deadline is Some,
            r matches Ok(x) ==> {
                &&& -INFINITE <= x.score.0 <= INFINITE
                &&& x.pv.wf()
                &&& spec_line_legal(e.pos(), x.pv.moves@)
                &&& (e.pos().0 == Stage::Regular && !spec_in_check(e.pos(), spec_to_move(e.pos().1))
                    && e.pos().1 + 4 <= PLY_DRAW && alpha.0 < WIN_MAX_PLY && beta.0 > -WIN_MAX_PLY)
                    ==> x.score.0 >= spec_pack(
                    ScoreExpanded::Eval((spec_eval(*e) + old(self).spec_contempt(e.pos().1)) as i32),
                ).0
                &&& spec_quiet(e.pos()) ==> x.score.0 >= min_int(
                    spec_stand_pat(e.weights(), e.to_move_weight(), old(self).red_contempt as int, e.pos()),
                    beta.0 as int,
                )
            },
        decreases PLY_DRAW + 4 - e.pos().1,
    {
        match self.new_node() {
            Ok(()) => {},
            Err(t) => {
                return Err(t);
            },
        }
        proof {
            e.lemma_evaluate_fits();
        }
        // Assume no checkmate of the opponent is found in quiescence.
        if alpha.0 >= WIN_MAX_PLY {
            return Ok(leaf(Score(WIN_MAX_PLY), 0));
        }
        let position = e.position();
        let ply = position.ply();
        let me = position.to_move();
        let in_check = movegen::in_check(position, me);
        let mut result;
        let moves: Vec<RegularMove>;
        if in_check {
            // Fastest loss is at ply + 2 if checkmated; fastest win at ply + 3.
            if ply + 2 > PLY_DRAW || (ply + 3 > PLY_DRAW && alpha.0 >= 0) {
                return Ok(leaf(Score(0), 0));
            }
            if position.stage() != Stage::Regular {
                return Ok(leaf(Score(0), 0));
            }
            result = leaf(loss_score(ply + 2), 0);
            moves = movegen::check_evasions(position);
        } else {
            // Fastest win is at ply + 3; fastest loss at ply + 4.
            if ply + 3 > PLY_DRAW || (ply + 4 > PLY_DRAW && beta.0 <= 0) {
                return Ok(leaf(Score(0), 0));
            }
            // Standing pat is enough.
            if beta.0 <= -WIN_MAX_PLY {
                return Ok(leaf(Score(-WIN_MAX_PLY), 0));
            }
            let contempt = match me {
                Color::Red => self.red_contempt,
                Color::Blue => -self.red_contempt,
            };
            let eval = e.evaluate() + contempt;
            proof {
                assert(spec_eval(*e) == spec_static_eval(e.weights(), e.to_move_weight(), e.pos()));
            }
            result = SearchResultInternal {
                score: Score::from_eval(eval),
                depth: 0,
                pv: LongVariation::empty(),
                repetition_ply: 255,
            };
            if result.score.0 >= beta.0 {
                return Ok(result);
            }
            if position.wazir_square(me.opposite()).is_none() {
                return Ok(result);
            }
            let mut caps = movegen::captures_checks(position);
            let mut rest = movegen::captures_non_checks(position);
            caps.append(&mut rest);
            moves = caps;
        }
        let ghost start_score = result.score.0;
        let ghost s = e.pos();
        let mut i: usize = 0;
        while i < moves.len()
            invariant_except_break
                self.wf(),
                self.history == old(self).history,
                self.evaluator == old(self).evaluator,
                self.params == old(self).params,
                self.root_ply == old(self).root_ply,
                self.red_contempt == old(self).red_contempt,
                self.hard_deadline == old(self).hard_deadline,
                e.wf(),
                e.consistent(),
                s == e.pos(),
                s.1 + 2 <= PLY_DRAW,
                -INFINITE <= alpha.0 <= INFINITE,
                -INFINITE <= beta.0 <= INFINITE,
                -INFINITE <= result.score.0 <= INFINITE,
                result.score.0 >= start_score,
                result.pv.wf(),
                spec_line_legal(s, result.pv.moves@),
                i <= moves.len(),
            ensures
                self.wf(),
                self.history == old(self).history,
                self.evaluator == old(self).evaluator,
                self.params == old(self).params,
                self.root_ply == old(self).root_ply,
                self.red_contempt == old(self).red_contempt,
                self.hard_deadline == old(self).hard_deadline,
                -INFINITE <= result.score.0 <= INFINITE,
                result.score.0 >= start_score,
                result.pv.wf(),
                spec_line_legal(s, result.pv.moves@),
            decreases moves.len() - i,
        {
            let mov = moves[i];
            i += 1;
            proof {
                e.lemma_make_move_fits(mov);
            }
            let e2 = match e.make_move(mov) {
                Ok(e2) => e2,
                Err(_) => {
                    continue;
                },
            };
            let alpha2 = max_score(alpha, result.score);
            let r2 = match self.quiescence_search(&e2, beta.neg(), alpha2.neg()) {
                Ok(r2) => r2,
                Err(t) => {
                    return Err(t);
                },
            };
            let score = r2.score.neg();
            if score.0 > result.score.0 {
                result.score = score;
                if score.0 > alpha.0 {
                    proof {
                        lemma_line_cons(s, mov, r2.pv.moves@, if r2.pv.moves@.len() + 1 <= 100 {
                            r2.pv.moves@.len() + 1int
                        } else {
                            100int
                        });
                    }
                    result.pv = r2.pv.add_front(mov);
                }
                if score.0 >= beta.0 {
                    break;
                }
            }
        }
        Ok(result)
    }

    /// What the node calls in the search below it rely on: the history ends with the
    /// position searched.
    pub open spec fn at_node(&self, e: EvaluatedPosition) -> bool {
        &&& self.history.hashes().len() > 0
        &&& self.history.next_ply() == e.pos().1 + 1
    }

    /// Principal-variation alpha-beta search of `e` to `depth` (in hundredths of a ply),
    /// with the window (`alpha`, `beta`), `node_type` telling what the node is expected
    /// to be. It cuts off at once on the earliest win or loss still possible and on a
    /// repetition, uses the transposition table, and stores its finding there, with the
    /// principal variation of an exact score, and a quiet move that causes a beta cutoff
    /// as a killer move of its ply.
    #[verifier::rlimit(80)]
    #[verifier::spinoff_prover]
    pub fn search_alpha_beta(
        &mut self,
        e: &EvaluatedPosition<'a>,
        alpha: Score,
        beta: Score,
        depth: Depth,
        node_type: NodeType,
    ) -> (r: Result<SearchResultInternal, Timeout>)
        requires
            old(self).wf(),
            old(self).at_node(*e),
            e.wf(),
            e.consistent(),
            -INFINITE <= alpha.0 <= INFINITE,
            -INFINITE <= beta.0 <= INFINITE,
        ensures
            final(self).wf(),
            final(self).evaluator == old(self).evaluator,
            final(self).params == old(self).params,
            final(self).root_ply == old(self).root_ply,
            final(self).red_contempt == old(self).red_contempt,
            final(self).hard_deadline == old(self).hard_deadline,
            r is Err ==> old(self).hard_deadline is Some,
            r matches Ok(x) ==> {
                &&& same_history(final(self).history, old(self).history)
                &&& -INFINITE <= x.score.0 <= INFINITE
                &&& x.pv.wf()
                &&& spec_line_legal(e.pos(), x.pv.moves@)
                &&& (depth == 0 && spec_quiet(e.pos()) && !old(self).history.repeats()) ==> x.score.0 >= min_int(
                    spec_stand_pat(e.weights(), e.to_move_weight(), old(self).red_contempt as int, e.pos()),
                    beta.0 as int,
                )
            },
        decreases depth, 1int,
    {
        proof {
            e.lemma_evaluate_fits();
        }
        let position = e.position();
        let ply = position.ply();
        let me = position.to_move();
        // The earliest win and loss still possible bound the score.
        let earliest_win = ply + 3;
        let best_possible = if earliest_win > PLY_DRAW {
            Score(0)
        } else {
            win_score(earliest_win)
        };
        let in_check = movegen::in_check(position, me);
        let earliest_loss = if in_check {
            ply + 2
        } else {
            ply + 4
        };
        let worst_possible = if earliest_loss > PLY_DRAW {
            Score(0)
        } else {
            loss_score(earliest_loss)
        };
        proof {
            lemma_pack_range(ScoreExpanded::Win(earliest_win));
            lemma_pack_range(ScoreExpanded::Loss(earliest_loss));
        }
        if best_possible.0 == worst_possible.0 || best_possible.0 <= alpha.0 {
            return Ok(leaf(best_possible, Depth::MAX));
        }
        if worst_possible.0 >= beta.0 {
            return Ok(leaf(worst_possible, Depth::MAX));
        }
        // A repetition is a draw.
        match self.history.find_repetition() {
            Some(rp) => {
                let mut res = leaf(Score(0), Depth::MAX);
                res.repetition_ply = if rp <= self.root_ply {
                    255
                } else {
                    rp
                };
                return Ok(res);
            },
            None => {},
        }
        if depth == 0 || position.stage() != Stage::Regular {
            return self.quiescence_search(e, alpha, beta);
        }
        match self.new_node() {
            Ok(()) => {},
            Err(t) => {
                return Err(t);
            },
        }
        // Transposition table lookup.
        let mut tt_move: Option<RegularMove> = None;
        let hash = position.hash();
        if depth >= self.params.min_depth_ttable {
            match self.ttable.get(hash) {
                Some(entry) => {
                    if entry.depth >= depth {
                        let (cutoff, stored) = match entry.score {
                            TTableScore::NoScore => (false, Score(0)),
                            TTableScore::Exact(sc) => (true, sc),
                            TTableScore::LowerBound(sc) => {
                                let a = sc.to_absolute(ply);
                                (a.0 >= beta.0, sc)
                            },
                            TTableScore::UpperBound(sc) => {
                                let a = sc.to_absolute(ply);
                                (a.0 <= alpha.0, sc)
                            },
                        };
                        if cutoff {
                            let score = stored.to_absolute(ply);
                            proof {
                                lemma_pack_range(
                                    crate::score::spec_expanded_to_absolute(crate::score::spec_expand(stored), ply),
                                );
                            }
                            let mut pv = LongVariation::empty_truncated();
                            if entry.score.score_type() == TTableScoreType::Exact {
                                match self.pvtable.get(hash) {
                                    Some(v) => {
                                        if line_legal_from(position, &v, 0) {
                                            proof {
                                                assert(v.moves@.skip(0) =~= v.moves@);
                                            }
                                            pv = v;
                                        }
                                    },
                                    None => {},
                                }
                            }
                            return Ok(SearchResultInternal { score, depth: entry.depth, pv, repetition_ply: 255 });
                        }
                    }
                    tt_move = entry.mov;
                },
                None => {},
            }
        }
        proof {
            e.lemma_wf_valid();
            crate::movegen::lemma_has_wazir(e.pos(), me.spec_opposite());
        }
        let result = match self.search_alpha_beta_deeper(e, alpha, beta, depth, in_check, tt_move, node_type) {
            Ok(x) => x,
            Err(t) => {
                return Err(t);
            },
        };
        let mov = result.pv.first();
        // A quiet move that causes a beta cutoff becomes the first killer move of its ply.
        if result.score.0 >= beta.0 {
            match mov {
                Some(m) => {
                    if m.captured.is_none() {
                        let old_killers = self.killer_moves[ply as usize];
                        if old_killers[0] != Some(m) {
                            self.killer_moves.set(ply as usize, [Some(m), old_killers[0]]);
                        }
                    }
                },
                None => {},
            }
        }
        // Store what was found.
        if depth >= self.params.min_depth_ttable {
            let draw_rep = result.repetition_ply >= ply;
            let score_type = if result.score.0 >= beta.0 {
                if draw_rep || result.score.0 > 0 {
                    TTableScoreType::LowerBound
                } else {
                    TTableScoreType::NoScore
                }
            } else if result.score.0 <= alpha.0 {
                if draw_rep || result.score.0 < 0 {
                    TTableScoreType::UpperBound
                } else {
                    TTableScoreType::NoScore
                }
            } else if draw_rep {
                TTableScoreType::Exact
            } else if result.score.0 < 0 {
                TTableScoreType::UpperBound
            } else if result.score.0 > 0 {
                TTableScoreType::LowerBound
            } else {
                TTableScoreType::NoScore
            };
            if score_type == TTableScoreType::Exact {
                self.pvtable.set(hash, result.pv.clone());
            }
            if mov.is_some() || score_type != TTableScoreType::NoScore {
                let rel = result.score.to_relative(ply);
                let stored = match score_type {
                    TTableScoreType::NoScore => TTableScore::NoScore,
                    TTableScoreType::Exact => TTableScore::Exact(rel),
                    TTableScoreType::LowerBound => TTableScore::LowerBound(rel),
                    TTableScoreType::UpperBound => TTableScore::UpperBound(rel),
                };
                self.ttable.set(hash, TTableEntry { depth: result.depth, mov, score: stored });
            }
        }
        Ok(result)
    }

    /// The move loop of a node with no early cutoff. Out of check, quiet moves after the
    /// futility point are skipped at the last ply when the evaluation is far enough below
    /// alpha, and searched first at reduced depth once enough moves are searched; on a
    /// principal-variation node, moves after the first are first searched with a null
    /// window.
    #[verifier::rlimit(80)]
    #[verifier::spinoff_prover]
    pub fn search_alpha_beta_deeper(
        &mut self,
        e: &EvaluatedPosition<'a>,
        alpha: Score,
        beta: Score,
        depth: Depth,
        in_check: bool,
        tt_move: Option<RegularMove>,
        node_type: NodeType,
    ) -> (r: Result<SearchResultInternal, Timeout>)
        requires
            old(self).wf(),
            old(self).at_node(*e),
            e.wf(),
            e.consistent(),
            e.pos().0 == Stage::Regular,
            in_check == spec_in_check(e.pos(), spec_to_move(e.pos().1)),
            spec_has_wazir(e.pos(), spec_to_move(e.pos().1).spec_opposite()),
            depth > 0,
            -INFINITE <= alpha.0 <= INFINITE,
            -INFINITE <= beta.0 <= INFINITE,
        ensures
            final(self).wf(),
            final(self).evaluator == old(self).evaluator,
            final(self).params == old(self).params,
            final(self).root_ply == old(self).root_ply,
            final(self).red_contempt == old(self).red_contempt,
            final(self).hard_deadline == old(self).hard_deadline,
            r is Err ==> old(self).hard_deadline is Some,
            r matches Ok(x) ==> {
                &&& same_history(final(self).history, old(self).history)
                &&& -INFINITE <= x.score.0 <= INFINITE
                &&& x.pv.wf()
                &&& spec_line_legal(e.pos(), x.pv.moves@)
            },
        decreases depth, 0int,
    {
        proof {
            e.lemma_evaluate_fits();
        }
        let position = e.position();
        let ply = position.ply();
        let me = position.to_move();
        let ghost s = e.pos();
        let ghost h0 = self.history;
        // If checkmated, the loss comes two plies on.
        let mut result = leaf(loss_score(ply + 2), Depth::MAX);
        proof {
            lemma_pack_range(ScoreExpanded::Loss((ply + 2) as u8));
        }
        let killers = self.killer_moves[ply as usize];
        let candidates = generate_move_candidates(position, in_check, tt_move, killers);
        let mut extra_moves: Vec<RegularMove> = Vec::new();
        let mut move_index: usize = 0;
        let mut enable_late_move_reduction = false;
        let mut i: usize = 0;
        while i < candidates.len()
            invariant_except_break
                self.wf(),
                self.at_node(*e),
                same_history(self.history, h0),
                h0 == old(self).history,
                self.evaluator == old(self).evaluator,
                self.params == old(self).params,
                self.root_ply == old(self).root_ply,
                self.red_contempt == old(self).red_contempt,
                self.hard_deadline == old(self).hard_deadline,
                e.wf(),
                e.consistent(),
                s == e.pos(),
                ply == s.1,
                s.1 <= 200,
                me == spec_to_move(s.1),
                depth > 0,
                -INFINITE <= alpha.0 <= INFINITE,
                -INFINITE <= beta.0 <= INFINITE,
                -INFINITE <= result.score.0 <= INFINITE,
                result.pv.wf(),
                spec_line_legal(s, result.pv.moves@),
                i <= candidates.len(),
                move_index <= i,
            ensures
                self.wf(),
                same_history(self.history, old(self).history),
                self.evaluator == old(self).evaluator,
                self.params == old(self).params,
                self.root_ply == old(self).root_ply,
                self.red_contempt == old(self).red_contempt,
                self.hard_deadline == old(self).hard_deadline,
                -INFINITE <= result.score.0 <= INFINITE,
                result.pv.wf(),
                spec_line_legal(s, result.pv.moves@),
            decreases candidates.len() - i,
        {
            let candidate = &candidates[i];
            i += 1;
            match candidate {
                Candidate::Move { mov, extra } => {
                    let mov = *mov;
                    let extra = *extra;
                    if contains_move(&extra_moves, mov) {
                        continue;
                    }
                    proof {
                        e.lemma_make_move_fits(mov);
                    }
                    // An illegal move can only be an extra one (a stale table move or
                    // killer); it is skipped.
                    let e2 = match e.make_move(mov) {
                        Ok(e2) => e2,
                        Err(_) => {
                            continue;
                        },
                    };
                    if extra {
                        // Skip a suicide.
                        if movegen::in_check(e2.position(), me) {
                            continue;
                        }
                        extra_moves.push(mov);
                    }
                    let hash2 = e2.position().hash();
                    self.history.push(hash2);
                    proof {
                        assert(self.history.hashes().drop_last() =~= h0.hashes());
                    }
                    let cur_move_index = move_index;
                    move_index += 1;
                    let alpha2 = max_score(alpha, result.score);
                    // Late moves are first tried at reduced depth with a null window.
                    if enable_late_move_reduction && cur_move_index >= self.params.late_move_reduction_start {
                        let depth_diff: Depth = 2 * ONE_PLY;
                        let depth2 = depth.saturating_sub(depth_diff);
                        let r2 = match self.search_alpha_beta(&e2, alpha2.next().neg(), alpha2.neg(), depth2, NodeType::Cut) {
                            Ok(x) => x,
                            Err(t) => {
                                return Err(t);
                            },
                        };
                        if r2.score.neg().0 <= alpha2.0 {
                            let d = r2.depth.saturating_add(depth_diff);
                            if d < result.depth {
                                result.depth = d;
                            }
                            if r2.repetition_ply < result.repetition_ply {
                                result.repetition_ply = r2.repetition_ply;
                            }
                            self.pop_history(Ghost(h0));
                            continue;
                        }
                    }
                    let depth_diff: Depth = ONE_PLY;
                    let depth2 = depth.saturating_sub(depth_diff);
                    // After the first move of a principal-variation node, a null window.
                    if node_type == NodeType::PV && cur_move_index != 0 {
                        let r2 = match self.search_alpha_beta(&e2, alpha2.next().neg(), alpha2.neg(), depth2, NodeType::Cut) {
                            Ok(x) => x,
                            Err(t) => {
                                return Err(t);
                            },
                        };
                        if r2.score.neg().0 <= alpha2.0 {
                            let d = r2.depth.saturating_add(depth_diff);
                            if d < result.depth {
                                result.depth = d;
                            }
                            if r2.repetition_ply < result.repetition_ply {
                                result.repetition_ply = r2.repetition_ply;
                            }
                            self.pop_history(Ghost(h0));
                            continue;
                        }
                    }
                    // The full search.
                    let node_type2 = match node_type {
                        NodeType::PV => NodeType::PV,
                        NodeType::Cut => if cur_move_index == 0 {
                            NodeType::All
                        } else {
                            NodeType::Cut
                        },
                        NodeType::All => NodeType::Cut,
                    };
                    let r2 = match self.search_alpha_beta(&e2, beta.neg(), alpha2.neg(), depth2, node_type2) {
                        Ok(x) => x,
                        Err(t) => {
                            return Err(t);
                        },
                    };
                    self.pop_history(Ghost(h0));
                    let score = r2.score.neg();
                    let depth_actual = r2.depth.saturating_add(depth_diff);
                    if score.0 > result.score.0 {
                        result.score = score;
                        if score.0 > alpha.0 {
                            proof {
                                lemma_line_cons(s, mov, r2.pv.moves@, if r2.pv.moves@.len() + 1 <= 100 {
                                    r2.pv.moves@.len() + 1int
                                } else {
                                    100int
                                });
                            }
                            result.pv = r2.pv.add_front(mov);
                        }
                        if score.0 >= beta.0 {
                            result.depth = depth_actual;
                            result.repetition_ply = r2.repetition_ply;
                            break;
                        }
                    }
                    if depth_actual < result.depth {
                        result.depth = depth_actual;
                    }
                    if r2.repetition_ply < result.repetition_ply {
                        result.repetition_ply = r2.repetition_ply;
                    }
                },
                Candidate::Futility => {
                    if depth <= ONE_PLY {
                        let futile = match ScoreExpanded::from_score(alpha) {
                            ScoreExpanded::Win(_) => true,
                            ScoreExpanded::Loss(_) => false,
                            ScoreExpanded::Eval(alpha_eval) => {
                                proof {
                                    e.lemma_evaluate_fits();
                                }
                                let eval = e.evaluate() as i64;
                                eval <= alpha_eval as i64 - self.params.futility_margin as i64
                            },
                        };
                        if futile {
                            return Ok(leaf(alpha, depth));
                        }
                    } else {
                        enable_late_move_reduction = true;
                    }
                },
            }
        }
        Ok(result)
    }

    /// Forgets the position pushed for a move just searched.
    fn pop_history(&mut self, Ghost(h0): Ghost<History>)
        requires
            old(self).history.wf(),
            old(self).history.hashes().len() > 0,
            old(self).history.start() == h0.start(),
            old(self).history.hashes().drop_last() == h0.hashes(),
            old(self).history.cuts() == h0.cuts(),
            forall|i: int| 0 <= i < h0.cuts().len() ==> #[trigger] h0.cuts()[i] < h0.next_ply(),
            h0.next_ply() + 1 == old(self).history.next_ply(),
        ensures
            same_history(final(self).history, h0),
            final(self).evaluator == old(self).evaluator,
            final(self).params == old(self).params,
            final(self).root_ply == old(self).root_ply,
            final(self).red_contempt == old(self).red_contempt,
            final(self).hard_deadline == old(self).hard_deadline,
            final(self).ttable == old(self).ttable,
            final(self).pvtable == old(self).pvtable,
            final(self).killer_moves == old(self).killer_moves,
            final(self).history.wf(),
    {
        proof {
            assert forall|i: int| 0 <= i < old(self).history.cuts().len() implies #[trigger] old(self).history.cuts()[i]
                < old(self).history.next_ply() by {
                assert(h0.cuts()[i] < h0.next_ply());
            }
            if h0.cuts().len() > 0 {
                assert(h0.cuts().last() < h0.next_ply());
            }
        }
        self.history.pop();
    }

    /// Plays the `k`-th root move from the root and searches it, the position being
    /// recorded in the history meanwhile.
    fn search_root_move(
        &mut self,
        rs: &RootState,
        e: &EvaluatedPosition<'a>,
        k: usize,
        alpha: Score,
        beta: Score,
        depth: Depth,
        node_type: NodeType,
    ) -> (r: Result<SearchResultInternal, Timeout>)
        requires
            old(self).wf(),
            old(self).at_node(*e),
            rs.wf(),
            e.wf(),
            e.consistent(),
            e.pos() == rs.root@,
            k < rs.root_moves@.len(),
            -INFINITE <= alpha.0 <= INFINITE,
            -INFINITE <= beta.0 <= INFINITE,
        ensures
            final(self).wf(),
            final(self).evaluator == old(self).evaluator,
            final(self).params == old(self).params,
            final(self).root_ply == old(self).root_ply,
            final(self).red_contempt == old(self).red_contempt,
            final(self).hard_deadline == old(self).hard_deadline,
            r is Err ==> old(self).hard_deadline is Some,
            r matches Ok(x) ==> {
                &&& same_history(final(self).history, old(self).history)
                &&& -INFINITE <= x.score.0 <= INFINITE
                &&& x.pv.wf()
                &&& spec_line_legal(
                    spec_regular_step(e.pos(), rs.root_moves@[k as int].mov)->Some_0,
                    x.pv.moves@,
                )
                &&& ({
                    let t = spec_regular_step(e.pos(), rs.root_moves@[k as int].mov)->Some_0;
                    (depth == 0 && spec_quiet(t) && !old(self).history.repeats_after(spec_position_hash(t)))
                        ==> x.score.0 >= min_int(
                        spec_stand_pat(e.weights(), e.to_move_weight(), old(self).red_contempt as int, t),
                        beta.0 as int,
                    )
                })
            },
    {
        let mov = rs.root_moves[k].mov;
        proof {
            e.lemma_make_move_fits(mov);
        }
        let e2 = match e.make_move(mov) {
            Ok(e2) => e2,
            Err(_) => {
                return Ok(leaf(Score(0), 0));
            },
        };
        let ghost h0 = self.history;
        proof {
            e.lemma_wf_valid();
        }
        self.history.push(e2.position().hash());
        proof {
            assert(self.history.hashes().drop_last() =~= h0.hashes());
            lemma_push_repeats(h0, self.history, spec_position_hash(e2.pos()));
        }
        let r = match self.search_alpha_beta(&e2, alpha, beta, depth, node_type) {
            Ok(x) => x,
            Err(t) => {
                return Err(t);
            },
        };
        self.pop_history(Ghost(h0));
        Ok(r)
    }

    /// The search of depth one ply: every root move, with a full window, in order; the
    /// best goes first. Gives up at the soft deadline.
    #[verifier::rlimit(60)]
    #[verifier::spinoff_prover]
    pub fn search_shallow(&mut self, rs: &mut RootState, e: &EvaluatedPosition<'a>) -> (r: Result<(), Timeout>)
        requires
            old(self).wf(),
            old(self).at_node(*e),
            old(rs).wf(),
            old(rs).root_moves@.len() > 0,
            e.wf(),
            e.consistent(),
            e.pos() == old(rs).root@,
        ensures
            final(self).wf(),
            final(rs).wf(),
            final(rs).root == old(rs).root,
            final(rs).root_moves@.len() == old(rs).root_moves@.len(),
            old(rs).pv.moves@.len() > 0 ==> final(rs).pv.moves@.len() > 0,
            final(rs).max_depth == old(rs).max_depth,
            final(rs).deadlines == old(rs).deadlines,
            final(rs).multi_move_threshold == old(rs).multi_move_threshold,
            final(self).evaluator == old(self).evaluator,
            final(self).params == old(self).params,
            final(self).root_ply == old(self).root_ply,
            final(self).red_contempt == old(self).red_contempt,
            r is Ok ==> same_history(final(self).history, old(self).history),
            r is Ok ==> forall|i: int|
                0 <= i < final(rs).root_moves@.len() ==> root_move_bounded(
                    final(rs).root@,
                    e.weights(),
                    e.to_move_weight(),
                    old(self).red_contempt as int,
                    old(self).history,
                    #[trigger] final(rs).root_moves@[i],
                ),
            r is Ok ==> final(rs).pv.moves@.len() > 0 && final(rs).pv.moves@[0] == final(rs).root_moves@[0].mov,
            r is Ok ==> forall|i: int|
                0 <= i < final(rs).root_moves@.len() ==> final(rs).root_moves@[0].score.0
                    >= #[trigger] final(rs).root_moves@[i].score.0,
    {
        self.hard_deadline = match &rs.deadlines {
            Some(ds) => Some(ds.hard),
            None => None,
        };
        rs.depth = ONE_PLY;
        rs.root_moves_considered = 0;
        rs.root_moves_exact_score = 0;
        let ghost h0 = self.history;
        while rs.root_moves_considered < rs.root_moves.len()
            invariant
                self.wf(),
                self.at_node(*e),
                same_history(self.history, h0),
                h0 == old(self).history,
                rs.wf(),
                rs.root == old(rs).root,
                rs.root_moves@.len() == old(rs).root_moves@.len(),
                old(rs).pv.moves@.len() > 0 ==> rs.pv.moves@.len() > 0,
                rs.max_depth == old(rs).max_depth,
                rs.deadlines == old(rs).deadlines,
                rs.multi_move_threshold == old(rs).multi_move_threshold,
                e.wf(),
                e.consistent(),
                e.pos() == rs.root@,
                self.evaluator == old(self).evaluator,
                self.params == old(self).params,
                self.root_ply == old(self).root_ply,
                self.red_contempt == old(self).red_contempt,
                forall|i: int|
                    0 <= i < rs.root_moves_considered ==> root_move_bounded(
                        rs.root@,
                        e.weights(),
                        e.to_move_weight(),
                        old(self).red_contempt as int,
                        h0,
                        #[trigger] rs.root_moves@[i],
                    ),
                rs.root_moves_considered > 0 ==> rs.pv.moves@.len() > 0 && rs.pv.moves@[0] == rs.root_moves@[0].mov,
                forall|i: int|
                    0 <= i < rs.root_moves_considered ==> rs.root_moves@[0].score.0 >= #[trigger] rs.root_moves@[i].score.0,
            decreases rs.root_moves@.len() - rs.root_moves_considered,
        {
            match &rs.deadlines {
                Some(ds) => {
                    if deadline_passed(&ds.soft) {
                        return Err(Timeout);
                    }
                },
                None => {},
            }
            let k = rs.root_moves_considered;
            let mov = rs.root_moves[k].mov;
            let result = match self.search_root_move(rs, e, k, Score(-INFINITE), Score(INFINITE), 0, NodeType::PV) {
                Ok(x) => x,
                Err(t) => {
                    return Err(t);
                },
            };
            let score = result.score.neg();
            let ghost before = rs.root_moves@;
            rs.set_score(k, score);
            proof {
                let t = spec_regular_step(rs.root@, mov)->Some_0;
                assert(spec_stand_pat(e.weights(), e.to_move_weight(), old(self).red_contempt as int, t) < INFINITE);
                assert(root_move_bounded(rs.root@, e.weights(), e.to_move_weight(), old(self).red_contempt as int, h0, rs.root_moves@[k as int]));
                assert forall|i: int| 0 <= i < k implies #[trigger] rs.root_moves@[i] == before[i] by {}
            }
            if k == 0 || score.0 > rs.root_moves[0].score.0 {
                let ghost mid = rs.root_moves@;
                rs.rotate_to_front(0, k);
                rs.set_pv(mov, result.pv);
                proof {
                    assert forall|i: int| 0 < i <= k implies #[trigger] rs.root_moves@[i] == mid[i - 1] by {}
                }
            }
            rs.root_moves_considered = k + 1;
            rs.root_moves_exact_score = k + 1;
        }
        let ghost top = rs.root_moves@[0];
        let ghost rs_root = rs.root@;
        rs.sort_root_moves(Ghost(|m: RootMove| root_move_bounded(
            rs_root,
            e.weights(),
            e.to_move_weight(),
            old(self).red_contempt as int,
            h0,
            m,
        ) && m.score.0 <= top.score.0));
        Ok(())
    }

    /// One more depth: the best move first with a full window, then each other move with
    /// a null window (late quiet moves first at reduced depth), searched again in full
    /// when it beats the best. Gives up at the soft deadline (the panic one when the best
    /// score has fallen by the panic threshold).
    #[verifier::rlimit(80)]
    #[verifier::spinoff_prover]
    pub fn iterative_deepening_iteration(&mut self, rs: &mut RootState, e: &EvaluatedPosition<'a>) -> (r: Result<
        (),
        Timeout,
    >)
        requires
            old(self).wf(),
            old(self).at_node(*e),
            old(rs).wf(),
            old(rs).root_moves@.len() > 0,
            e.wf(),
            e.consistent(),
            e.pos() == old(rs).root@,
        ensures
            final(self).wf(),
            final(rs).wf(),
            final(rs).root == old(rs).root,
            final(rs).root_moves@.len() == old(rs).root_moves@.len(),
            old(rs).pv.moves@.len() > 0 ==> final(rs).pv.moves@.len() > 0,
            final(rs).max_depth == old(rs).max_depth,
            final(rs).deadlines == old(rs).deadlines,
            final(rs).multi_move_threshold == old(rs).multi_move_threshold,
            final(self).evaluator == old(self).evaluator,
            final(self).params == old(self).params,
            final(self).root_ply == old(self).root_ply,
            final(self).red_contempt == old(self).red_contempt,
            r is Ok ==> same_history(final(self).history, old(self).history),
            r is Ok ==> final(rs).depth >= old(rs).depth,
    {
        let best0 = rs.root_moves[0].score;
        let panic_threshold: Score = match ScoreExpanded::from_score(best0) {
            ScoreExpanded::Win(_) => Score(WIN_MAX_PLY),
            ScoreExpanded::Loss(_) => Score(-INFINITE),
            ScoreExpanded::Eval(eval) => {
                let t = eval as i64 - self.params.panic_eval_threshold as i64;
                let t32: i32 = if t < i32::MIN as i64 {
                    i32::MIN
                } else if t > i32::MAX as i64 {
                    i32::MAX
                } else {
                    t as i32
                };
                Score::from_eval(t32)
            },
        };
        // The first move.
        self.hard_deadline = match &rs.deadlines {
            Some(ds) => Some(ds.hard),
            None => None,
        };
        let next_depth = rs.depth.saturating_add(crate::constants::DEPTH_INCREMENT);
        let mov0 = rs.root_moves[0].mov;
        let result = match self.search_root_move(rs, e, 0, Score(-INFINITE), Score(INFINITE), next_depth.saturating_sub(ONE_PLY), NodeType::PV) {
            Ok(x) => x,
            Err(t) => {
                return Err(t);
            },
        };
        rs.depth = next_depth;
        rs.set_pv(mov0, result.pv);
        rs.set_score(0, result.score.neg());
        rs.root_moves_considered = 1;
        rs.root_moves_exact_score = 1;
        let ghost h0 = self.history;
        // The other moves.
        while rs.root_moves_considered < rs.root_moves.len()
            invariant
                self.wf(),
                self.at_node(*e),
                same_history(self.history, h0),
                same_history(h0, old(self).history),
                rs.wf(),
                rs.root == old(rs).root,
                rs.root_moves@.len() == old(rs).root_moves@.len(),
                rs.pv.moves@.len() > 0,
                rs.max_depth == old(rs).max_depth,
                rs.deadlines == old(rs).deadlines,
                rs.multi_move_threshold == old(rs).multi_move_threshold,
                rs.depth == next_depth,
                next_depth >= old(rs).depth,
                1 <= rs.root_moves_exact_score <= rs.root_moves_considered,
                e.wf(),
                e.consistent(),
                e.pos() == rs.root@,
                self.evaluator == old(self).evaluator,
                self.params == old(self).params,
                self.root_ply == old(self).root_ply,
                self.red_contempt == old(self).red_contempt,
            decreases rs.root_moves@.len() - rs.root_moves_considered,
        {
            let k = rs.root_moves_considered;
            match &rs.deadlines {
                Some(ds) => {
                    let is_panic = rs.root_moves[0].score.0 < panic_threshold.0;
                    let soft = if is_panic {
                        &ds.panic_soft
                    } else {
                        &ds.soft
                    };
                    if deadline_passed(soft) {
                        return Err(Timeout);
                    }
                    self.hard_deadline = Some(if is_panic {
                        ds.panic_hard
                    } else {
                        ds.hard
                    });
                },
                None => {
                    self.hard_deadline = None;
                },
            }
            let alpha = match rs.multi_move_threshold {
                Some(t) => {
                    let neg_t: i32 = -t;
                    let o = rs.root_moves[0].score.offset(neg_t);
                    proof {
                        lemma_pack_range(
                            crate::score::spec_expanded_offset(crate::score::spec_expand(rs.root_moves@[0].score), neg_t),
                        );
                    }
                    o.prev()
                },
                None => rs.root_moves[0].score,
            };
            // Late move reduction for quiet moves late in the order.
            if k >= self.params.late_move_reduction_start && rs.root_moves[k].futile {
                let depth_diff: Depth = 2 * ONE_PLY;
                let result = match self.search_root_move(rs, e, k, alpha.next().neg(), alpha.neg(), rs.depth.saturating_sub(depth_diff), NodeType::Cut) {
                    Ok(x) => x,
                    Err(t) => {
                        return Err(t);
                    },
                };
                let score = result.score.neg();
                rs.set_score(k, score);
                if score.0 <= alpha.0 {
                    rs.root_moves_considered = k + 1;
                    continue;
                }
            }
            let depth_diff: Depth = ONE_PLY;
            // Null window.
            let result = match self.search_root_move(rs, e, k, alpha.next().neg(), alpha.neg(), rs.depth.saturating_sub(depth_diff), NodeType::Cut) {
                Ok(x) => x,
                Err(t) => {
                    return Err(t);
                },
            };
            let score = result.score.neg();
            rs.set_score(k, score);
            if score.0 <= alpha.0 {
                rs.root_moves_considered = k + 1;
                continue;
            }
            // Full window.
            let mov = rs.root_moves[k].mov;
            let result = match self.search_root_move(rs, e, k, Score(-INFINITE), alpha.neg(), rs.depth.saturating_sub(depth_diff), NodeType::PV) {
                Ok(x) => x,
                Err(t) => {
                    return Err(t);
                },
            };
            let score = result.score.neg();
            rs.set_score(k, score);
            rs.root_moves_considered = k + 1;
            if score.0 > alpha.0 {
                let exact = rs.root_moves_exact_score;
                rs.rotate_to_front(exact, k);
                rs.root_moves_exact_score = exact + 1;
                if score.0 > rs.root_moves[0].score.0 {
                    rs.rotate_to_front(0, exact);
                    rs.set_pv(mov, result.pv);
                }
            }
        }
        rs.sort_root_moves(Ghost(|m: RootMove| true));
        Ok(())
    }

    /// Iterative deepening: a shallow search, then one depth more at a time up to the
    /// maximum depth, until the deadline for starting another depth.
    pub fn iterative_deepening(&mut self, rs: &mut RootState, e: &EvaluatedPosition<'a>) -> (r: Result<(), Timeout>)
        requires
            old(self).wf(),
            old(self).at_node(*e),
            old(rs).wf(),
            old(rs).root_moves@.len() > 0,
            e.wf(),
            e.consistent(),
            e.pos() == old(rs).root@,
        ensures
            final(self).wf(),
            final(rs).wf(),
            final(rs).root == old(rs).root,
            final(rs).root_moves@.len() == old(rs).root_moves@.len(),
            old(rs).pv.moves@.len() > 0 ==> final(rs).pv.moves@.len() > 0,
    {
        let mov0 = rs.root_moves[0].mov;
        rs.set_pv(mov0, LongVariation::empty());
        match self.search_shallow(rs, e) {
            Ok(()) => {},
            Err(t) => {
                return Err(t);
            },
        }
        while rs.depth < rs.max_depth
            invariant
                self.wf(),
                self.at_node(*e),
                rs.wf(),
                rs.root == old(rs).root,
                rs.root_moves@.len() == old(rs).root_moves@.len(),
                old(rs).pv.moves@.len() > 0 ==> rs.pv.moves@.len() > 0,
                rs.root_moves@.len() > 0,
                rs.max_depth == old(rs).max_depth,
                e.wf(),
                e.consistent(),
                e.pos() == rs.root@,
            decreases 65535 - rs.depth,
        {
            match &rs.deadlines {
                Some(ds) => {
                    if deadline_passed(&ds.start_next_depth) {
                        break;
                    }
                },
                None => {},
            }
            let d0 = rs.depth;
            match self.iterative_deepening_iteration(rs, e) {
                Ok(()) => {},
                Err(t) => {
                    return Err(t);
                },
            }
            if rs.depth == d0 {
                break;
            }
        }
        Ok(())
    }

    /// The root of a search: a capture of the opponent's wazir ends the game at once;
    /// otherwise the moves that are not suicides are searched by iterative deepening (one
    /// alone needs no search unless its score matters); with none, the suicides are all
    /// that is left, all scored as a loss.
    pub fn search_root(&mut self, rs: &mut RootState, is_score_important: bool)
        requires
            old(self).wf(),
            old(rs).wf(),
            old(rs).root@.0 == Stage::Regular,
            old(rs).root_moves@.len() == 0,
            old(self).history.hashes().len() > 0,
            old(self).history.next_ply() == old(rs).root@.1 + 1,
            old(self).evaluator.weights().len() == crate::wps_features::WPS_COUNT,
        ensures
            final(self).wf(),
            final(rs).wf(),
            final(rs).root == old(rs).root,
            final(rs).root_moves@.len() > 0 ==> final(rs).pv.moves@.len() > 0,
            final(rs).root_moves@.len() == 0 ==> forall|m: RegularMove| spec_regular_step(old(rs).root@, m) is None,
    {
        let root = rs.root;
        root.check_valid();
        let ply = root.ply();
        let me = root.to_move();
        proof {
            crate::movegen::lemma_has_wazir(root@, me.spec_opposite());
        }
        // Capturing the opponent's wazir wins at once.
        let win = win_score(ply + 1);
        proof {
            lemma_pack_range(ScoreExpanded::Win((ply + 1) as u8));
        }
        let wins = movegen::captures_of_wazir(&root);
        let mut i: usize = 0;
        while i < wins.len()
            invariant
                rs.wf(),
                rs.root == root,
                rs.pv == old(rs).pv,
                rs.root_moves_considered == 0,
                rs.root_moves_exact_score == 0,
                -INFINITE <= win.0 <= INFINITE,
            decreases wins.len() - i,
        {
            rs.push_if_legal(wins[i], win, false);
            i += 1;
        }
        if rs.root_moves.len() > 0 {
            let n = rs.root_moves.len();
            rs.root_moves_considered = n;
            rs.root_moves_exact_score = n;
            rs.depth = Depth::MAX;
            let m = rs.root_moves[0].mov;
            rs.set_pv(m, LongVariation::empty());
            return;
        }
        // The moves that are not suicides, in search order.
        let in_check = movegen::in_check(&root, me);
        let candidates = generate_move_candidates(&root, in_check, None, [None, None]);
        let mut futile = false;
        let mut i: usize = 0;
        while i < candidates.len()
            invariant
                rs.wf(),
                rs.root == root,
                rs.pv == old(rs).pv,
                rs.root_moves_considered == 0,
                rs.root_moves_exact_score == 0,
            decreases candidates.len() - i,
        {
            match &candidates[i] {
                Candidate::Move { mov, extra: _ } => {
                    rs.push_if_legal(*mov, Score(0), futile);
                },
                Candidate::Futility => {
                    futile = true;
                },
            }
            i += 1;
        }
        if rs.root_moves.len() == 0 {
            // Only suicides are left.
            let score = if ply + 2 <= PLY_DRAW {
                loss_score(ply + 2)
            } else {
                Score(0)
            };
            proof {
                lemma_pack_range(ScoreExpanded::Loss((ply + 2) as u8));
            }
            let all = movegen::pseudomoves(&root);
            let mut i: usize = 0;
            while i < all.len()
                invariant
                    rs.wf(),
                    rs.root == root,
                    rs.pv == old(rs).pv,
                    rs.root_moves_considered == 0,
                    rs.root_moves_exact_score == 0,
                    -INFINITE <= score.0 <= INFINITE,
                    rs.root_moves@.len() == 0 ==> forall|j: int| 0 <= j < i ==> spec_regular_step(root@, #[trigger] all@[j]) is None,
                decreases all.len() - i,
            {
                rs.push_if_legal(all[i], score, false);
                i += 1;
            }
            if rs.root_moves.len() == 0 {
                proof {
                    assert forall|m: RegularMove| spec_regular_step(old(rs).root@, m) is None by {
                        crate::movegen::lemma_pseudomoves_legal(root@, m);
                        if spec_regular_step(root@, m) is Some {
                            assert(all@.contains(m));
                            let j = choose|j: int| 0 <= j < all@.len() && all@[j] == m;
                            assert(spec_regular_step(root@, all@[j]) is None);
                        }
                    }
                }
                return;
            }
            let n = rs.root_moves.len();
            rs.root_moves_considered = n;
            rs.root_moves_exact_score = n;
            rs.depth = Depth::MAX;
            let m = rs.root_moves[0].mov;
            rs.set_pv(m, LongVariation::empty());
            return;
        }
        if rs.root_moves.len() == 1 && !is_score_important {
            rs.depth = 0;
            rs.root_moves_considered = 1;
            rs.root_moves_exact_score = 1;
            let m = rs.root_moves[0].mov;
            rs.set_pv(m, LongVariation::empty_truncated());
            return;
        }
        self.ttable.new_epoch();
        self.pvtable.new_epoch();
        let e = EvaluatedPosition::new(self.evaluator, root);
        // A timeout keeps what was found so far.
        let m0 = rs.root_moves[0].mov;
        rs.set_pv(m0, LongVariation::empty());
        let _ = self.iterative_deepening(rs, &e);
    }

    /// Forgets the position pushed, as irreversible, for a setup just searched.
    fn pop_history_irreversible(&mut self, Ghost(h0): Ghost<History>)
        requires
            old(self).history.wf(),
            old(self).history.hashes().len() > 0,
            old(self).history.start() == h0.start(),
            old(self).history.hashes().drop_last() == h0.hashes(),
            old(self).history.cuts() == h0.cuts().push(h0.next_ply()),
            forall|i: int| 0 <= i < h0.cuts().len() ==> #[trigger] h0.cuts()[i] < h0.next_ply(),
            h0.next_ply() + 1 == old(self).history.next_ply(),
        ensures
            same_history(final(self).history, h0),
            final(self).evaluator == old(self).evaluator,
            final(self).params == old(self).params,
            final(self).root_ply == old(self).root_ply,
            final(self).red_contempt == old(self).red_contempt,
            final(self).hard_deadline == old(self).hard_deadline,
            final(self).ttable == old(self).ttable,
            final(self).pvtable == old(self).pvtable,
            final(self).killer_moves == old(self).killer_moves,
            final(self).history.wf(),
    {
        proof {
            assert forall|i: int| 0 <= i < old(self).history.cuts().len() implies #[trigger] old(self).history.cuts()[i]
                < old(self).history.next_ply() by {
                if i < h0.cuts().len() {
                    assert(old(self).history.cuts()[i] == h0.cuts()[i]);
                }
            }
            assert(h0.cuts().push(h0.next_ply()).drop_last() =~= h0.cuts());
        }
        self.history.pop();
    }

    /// Plays blue's setup `mov` from the position after red's and searches the game from
    /// there, the position being recorded (as irreversible) meanwhile.
    fn search_setup_move(
        &mut self,
        e: &EvaluatedPosition<'a>,
        mov: SetupMove,
        alpha: Score,
        beta: Score,
        depth: Depth,
        node_type: NodeType,
    ) -> (r: Result<SearchResultInternal, Timeout>)
        requires
            old(self).wf(),
            old(self).at_node(*e),
            e.wf(),
            e.consistent(),
            crate::position::spec_setup_legal(e.pos(), mov),
            mov.color == Color::Blue,
            -INFINITE <= alpha.0 <= INFINITE,
            -INFINITE <= beta.0 <= INFINITE,
        ensures
            final(self).wf(),
            final(self).evaluator == old(self).evaluator,
            final(self).params == old(self).params,
            final(self).root_ply == old(self).root_ply,
            final(self).red_contempt == old(self).red_contempt,
            final(self).hard_deadline == old(self).hard_deadline,
            r is Err ==> old(self).hard_deadline is Some,
            r matches Ok(x) ==> {
                &&& same_history(final(self).history, old(self).history)
                &&& -INFINITE <= x.score.0 <= INFINITE
                &&& x.pv.wf()
                &&& ({
                    let t = spec_setup_result(e.pos(), mov);
                    (depth == 0 && spec_quiet(t)) ==> x.score.0 >= min_int(
                        spec_stand_pat(e.weights(), e.to_move_weight(), old(self).red_contempt as int, t),
                        beta.0 as int,
                    )
                })
            },
    {
        proof {
            e.lemma_make_setup_move_fits(mov);
            e.lemma_wf_valid();
        }
        let e2 = match e.make_setup_move(mov) {
            Ok(e2) => e2,
            Err(_) => {
                return Ok(leaf(Score(0), 0));
            },
        };
        let ghost h0 = self.history;
        self.history.push_irreversible(e2.position().hash());
        proof {
            assert(self.history.hashes().drop_last() =~= h0.hashes());
            lemma_cut_no_repeat(self.history);
            assert forall|i: int| 0 <= i < self.history.cuts().len() implies #[trigger] self.history.cuts()[i]
                < self.history.next_ply() by {
                if i < h0.cuts().len() {
                    assert(self.history.cuts()[i] == h0.cuts()[i]);
                }
            }
        }
        let r = match self.search_alpha_beta(&e2, alpha, beta, depth, node_type) {
            Ok(x) => x,
            Err(t) => {
                return Err(t);
            },
        };
        self.pop_history_irreversible(Ghost(h0));
        Ok(r)
    }

    /// One more depth of the search for blue's setup: the best setup so far with a full
    /// window, then each other with a null window, searched again in full when it beats
    /// the best, which it then replaces. Gives up at the soft deadline.
    #[verifier::rlimit(60)]
    #[verifier::spinoff_prover]
    pub fn blue_setup_iterative_deepening_iteration(
        &mut self,
        bs: &mut BlueSetupState,
        e: &EvaluatedPosition<'a>,
    ) -> (r: Result<(), Timeout>)
        requires
            old(self).wf(),
            old(self).at_node(*e),
            old(bs).wf(e.pos()),
            old(bs).moves@.len() > 0,
            e.wf(),
            e.consistent(),
        ensures
            final(self).wf(),
            final(bs).wf(e.pos()),
            final(bs).moves@.len() == old(bs).moves@.len(),
            final(bs).deadlines == old(bs).deadlines,
            final(bs).max_depth == old(bs).max_depth,
            final(self).evaluator == old(self).evaluator,
            final(self).params == old(self).params,
            final(self).root_ply == old(self).root_ply,
            final(self).red_contempt == old(self).red_contempt,
            r is Ok ==> same_history(final(self).history, old(self).history),
            r is Ok ==> final(bs).depth > old(bs).depth || old(bs).depth == Depth::MAX,
            (r is Ok && final(bs).depth <= ONE_PLY) ==> setup_bounded(
                e.pos(),
                e.weights(),
                e.to_move_weight(),
                old(self).red_contempt as int,
                final(bs).moves@[0],
                final(bs).score,
            ),
    {
        let next_depth = bs.depth.saturating_add(crate::constants::DEPTH_INCREMENT);
        let mov0 = bs.moves[0];
        let result = match self.search_setup_move(e, mov0, Score(-INFINITE), Score(INFINITE), next_depth.saturating_sub(ONE_PLY), NodeType::PV) {
            Ok(x) => x,
            Err(t) => {
                return Err(t);
            },
        };
        bs.depth = next_depth;
        bs.pv = result.pv;
        bs.score = result.score.neg();
        bs.considered = 1;
        proof {
            let t = spec_setup_result(e.pos(), mov0);
            assert(spec_stand_pat(e.weights(), e.to_move_weight(), old(self).red_contempt as int, t) < INFINITE);
        }
        let ghost h0 = self.history;
        while bs.considered < bs.moves.len()
            invariant
                self.wf(),
                self.at_node(*e),
                same_history(self.history, h0),
                same_history(h0, old(self).history),
                bs.wf(e.pos()),
                bs.moves@.len() == old(bs).moves@.len(),
                bs.deadlines == old(bs).deadlines,
                bs.max_depth == old(bs).max_depth,
                bs.depth == next_depth,
                bs.depth <= ONE_PLY ==> setup_bounded(
                    e.pos(),
                    e.weights(),
                    e.to_move_weight(),
                    old(self).red_contempt as int,
                    bs.moves@[0],
                    bs.score,
                ),
                e.wf(),
                e.consistent(),
                self.evaluator == old(self).evaluator,
                self.params == old(self).params,
                self.root_ply == old(self).root_ply,
                self.red_contempt == old(self).red_contempt,
            decreases bs.moves@.len() - bs.considered,
        {
            match &bs.deadlines {
                Some(ds) => {
                    if deadline_passed(&ds.soft) {
                        break;
                    }
                },
                None => {},
            }
            let k = bs.considered;
            let mov = bs.moves[k];
            let alpha = bs.score;
            // Null window.
            let result = match self.search_setup_move(e, mov, alpha.next().neg(), alpha.neg(), bs.depth.saturating_sub(ONE_PLY), NodeType::Cut) {
                Ok(x) => x,
                Err(t) => {
                    return Err(t);
                },
            };
            let score = result.score.neg();
            if score.0 <= alpha.0 {
                bs.considered = k + 1;
                continue;
            }
            // Full window.
            let result = match self.search_setup_move(e, mov, Score(-INFINITE), alpha.neg(), bs.depth.saturating_sub(ONE_PLY), NodeType::PV) {
                Ok(x) => x,
                Err(t) => {
                    return Err(t);
                },
            };
            let score = result.score.neg();
            if score.0 > alpha.0 {
                bs.rotate_to_front(k);
                bs.score = score;
                bs.pv = result.pv;
            }
            bs.considered = k + 1;
        }
        Ok(())
    }

    /// Iterative deepening for blue's setup, until the maximum depth or the deadline for
    /// starting another depth.
    pub fn blue_setup_iterative_deepening(&mut self, bs: &mut BlueSetupState, e: &EvaluatedPosition<'a>) -> (r: Result<
        (),
        Timeout,
    >)
        requires
            old(self).wf(),
            old(self).at_node(*e),
            old(bs).wf(e.pos()),
            old(bs).moves@.len() > 0,
            e.wf(),
            e.consistent(),
        ensures
            final(self).wf(),
            final(bs).wf(e.pos()),
            final(bs).moves@.len() == old(bs).moves@.len(),
    {
        self.hard_deadline = match &bs.deadlines {
            Some(ds) => Some(ds.hard),
            None => None,
        };
        while bs.depth < bs.max_depth
            invariant
                self.wf(),
                self.at_node(*e),
                bs.wf(e.pos()),
                bs.moves@.len() == old(bs).moves@.len(),
                bs.moves@.len() > 0,
                e.wf(),
                e.consistent(),
            decreases 65535 - bs.depth,
        {
            match &bs.deadlines {
                Some(ds) => {
                    if deadline_passed(&ds.start_next_depth) {
                        break;
                    }
                },
                None => {},
            }
            match self.blue_setup_iterative_deepening_iteration(bs, e) {
                Ok(()) => {},
                Err(t) => {
                    return Err(t);
                },
            }
        }
        Ok(())
    }
}

/// A search engine: the evaluator, the tuning values, and what it keeps from one search
/// to the next (the two tables and the killer moves).
pub struct Search<'a> {
    pub evaluator: &'a LinearEvaluator,
    pub params: SearchParams,
    pub ttable: TTable,
    pub pvtable: PVTable,
    pub killer_moves: Vec<[Option<RegularMove>; 2]>,
}

impl<'a> Search<'a> {
    /// The evaluator has a weight per feature, the tables are well formed, there is a
    /// killer slot per ply, and the contempt is moderate.
    pub open spec fn wf(&self) -> bool {
        &&& self.evaluator.weights().len() == crate::wps_features::WPS_COUNT
        &&& self.ttable.wf()
        &&& self.pvtable.wf()
        &&& self.killer_moves@.len() == PLY_DRAW + 1
        &&& -1000000 <= self.params.contempt <= 1000000
    }

    /// An engine with tables of about the given sizes in bytes.
    pub fn new(evaluator: &'a LinearEvaluator, params: SearchParams, ttable_size: usize, pvtable_size: usize) -> (r: Search<'a>)
        requires
            evaluator.weights().len() == crate::wps_features::WPS_COUNT,
            ttable_size / crate::ttable::TTABLE_BUCKET_BYTES > 0,
            pvtable_size / crate::pvtable::PVTABLE_BUCKET_BYTES > 0,
            -1000000 <= params.contempt <= 1000000,
        ensures
            r.wf(),
            r.evaluator == evaluator,
            r.params == params,
    {
        let mut killer_moves: Vec<[Option<RegularMove>; 2]> = Vec::new();
        let mut i: usize = 0;
        while i < (PLY_DRAW as usize) + 1
            invariant
                killer_moves@.len() == i,
                i <= PLY_DRAW + 1,
            decreases PLY_DRAW + 1 - i,
        {
            killer_moves.push([None, None]);
            i += 1;
        }
        Search {
            evaluator,
            params,
            ttable: TTable::new(ttable_size),
            pvtable: PVTable::new(pvtable_size),
            killer_moves,
        }
    }

    /// Searches `position` (in the game, with `history` ending with it) until the
    /// deadlines or `max_depth`, and reports the best score, the principal variation (a
    /// legal line, not empty when there is a legal move), the root moves within
    /// `multi_move_threshold` of the best, and statistics.
    pub fn search(
        &mut self,
        position: &Position,
        max_depth: Option<Depth>,
        deadlines: Option<Deadlines>,
        multi_move_threshold: Option<Eval>,
        is_score_important: bool,
        history: &History,
    ) -> (r: SearchResult)
        requires
            old(self).wf(),
            position@.0 == Stage::Regular,
            history.wf(),
            history.hashes().len() > 0,
            history.next_ply() == position@.1 + 1,
            forall|i: int| 0 <= i < history.cuts().len() ==> #[trigger] history.cuts()[i] < history.next_ply(),
            multi_move_threshold matches Some(t) ==> 0 <= t <= INFINITE,
        ensures
            final(self).wf(),
            final(self).evaluator == old(self).evaluator,
            final(self).params == old(self).params,
            r.pv.wf(),
            spec_line_legal(position@, r.pv.moves@),
            (exists|m: RegularMove| spec_regular_step(position@, m) is Some) ==> r.pv.moves@.len() > 0,
    {
        let mut ttable = TTable::new(crate::ttable::TTABLE_BUCKET_BYTES);
        let mut pvtable = PVTable::new(crate::pvtable::PVTABLE_BUCKET_BYTES);
        let mut killer_moves: Vec<[Option<RegularMove>; 2]> = Vec::new();
        std::mem::swap(&mut ttable, &mut self.ttable);
        std::mem::swap(&mut pvtable, &mut self.pvtable);
        std::mem::swap(&mut killer_moves, &mut self.killer_moves);
        let red_contempt = match position.to_move() {
            Color::Red => self.params.contempt,
            Color::Blue => -self.params.contempt,
        };
        let mut instance = SearchInstance {
            evaluator: self.evaluator,
            params: self.params,
            root_ply: position.ply(),
            red_contempt,
            hard_deadline: None,
            nodes: 0,
            history: history.copy(),
            ttable,
            pvtable,
            killer_moves,
        };
        let mut rs = RootState {
            root: *position,
            root_moves: Vec::new(),
            depth: 0,
            root_moves_considered: 0,
            root_moves_exact_score: 0,
            pv: LongVariation::empty(),
            max_depth: match max_depth {
                Some(d) => d,
                None => crate::constants::MAX_SEARCH_DEPTH,
            },
            deadlines,
            multi_move_threshold,
        };
        instance.search_root(&mut rs, is_score_important);
        let score = if rs.root_moves.len() > 0 {
            rs.root_moves[0].score
        } else {
            Score(0)
        };
        let mut top_moves: Vec<ScoredMove> = Vec::new();
        match multi_move_threshold {
            Some(t) => {
                let threshold = score.offset(-t);
                let mut i: usize = 0;
                while i < rs.root_moves_exact_score && i < rs.root_moves.len()
                    decreases rs.root_moves@.len() - i,
                {
                    let rm = rs.root_moves[i];
                    if rm.score.0 < threshold.0 {
                        break;
                    }
                    top_moves.push(ScoredMove { mov: rm.mov, score: rm.score });
                    i += 1;
                }
            },
            None => {},
        }
        let result = SearchResult {
            score,
            pv: rs.pv.clone(),
            top_moves,
            depth: rs.depth,
            root_moves_considered: rs.root_moves_considered,
            num_root_moves: rs.root_moves.len(),
            nodes: instance.nodes,
        };
        self.ttable = instance.ttable;
        self.pvtable = instance.pvtable;
        self.killer_moves = instance.killer_moves;
        result
    }

    /// Searches blue's reply to red's setup `red` among `possible_moves` (the legal ones;
    /// the first arrangement of the pieces when none is legal), until the deadlines or
    /// `max_depth`, and reports the setup chosen, its score and principal variation, and
    /// statistics.
    pub fn search_blue_setup(
        &mut self,
        red: SetupMove,
        max_depth: Option<Depth>,
        deadlines: Option<Deadlines>,
        possible_moves: &Vec<SetupMove>,
    ) -> (r: SearchResultBlueSetup)
        requires
            old(self).wf(),
            red.color == Color::Red,
            crate::moves::spec_valid_pieces(red.pieces@),
        ensures
            final(self).wf(),
            final(self).evaluator == old(self).evaluator,
            final(self).params == old(self).params,
            crate::position::spec_setup_legal(
                crate::position::spec_setup_result(spec_initial_position(), red),
                r.mov,
            ),
            r.mov.color == Color::Blue,
    {
        let initial = Position::initial();
        let mut history = History::new_from_position(&initial);
        let position = match initial.make_setup_move(red) {
            Ok(p) => p,
            Err(_) => {
                return self.blue_setup_fallback(red);
            },
        };
        position.check_valid();
        history.push_irreversible(position.hash());
        proof {
            assert(history.cuts() =~= seq![1nat]);
        }
        let mut moves: Vec<SetupMove> = Vec::new();
        let mut i: usize = 0;
        while i < possible_moves.len()
            invariant
                forall|j: int| 0 <= j < moves@.len() ==> crate::position::spec_setup_legal(position@, #[trigger] moves@[j])
                    && moves@[j].color == Color::Blue,
            decreases possible_moves@.len() - i,
        {
            let m = possible_moves[i];
            if m.color == Color::Blue && position.make_setup_move(m).is_ok() {
                moves.push(m);
            }
            i += 1;
        }
        if moves.len() == 0 {
            let mut it = crate::setups::setup_moves(Color::Blue);
            match it.next() {
                Some(first) => {
                    proof {
                        crate::setups::lemma_first_setup_valid();
                        assert(first.pieces@ == crate::setups::first_setup_pieces());
                    }
                    moves.push(first);
                },
                None => {},
            }
        }
        let mut ttable = TTable::new(crate::ttable::TTABLE_BUCKET_BYTES);
        let mut pvtable = PVTable::new(crate::pvtable::PVTABLE_BUCKET_BYTES);
        let mut killer_moves: Vec<[Option<RegularMove>; 2]> = Vec::new();
        std::mem::swap(&mut ttable, &mut self.ttable);
        std::mem::swap(&mut pvtable, &mut self.pvtable);
        std::mem::swap(&mut killer_moves, &mut self.killer_moves);
        ttable.new_epoch();
        pvtable.new_epoch();
        let mut instance = SearchInstance {
            evaluator: self.evaluator,
            params: self.params,
            root_ply: position.ply(),
            red_contempt: self.params.contempt,
            hard_deadline: None,
            nodes: 0,
            history,
            ttable,
            pvtable,
            killer_moves,
        };
        let mut bs = BlueSetupState {
            moves,
            score: Score(0),
            pv: LongVariation::empty(),
            depth: 0,
            considered: 0,
            max_depth: match max_depth {
                Some(d) => d,
                None => crate::constants::MAX_SEARCH_DEPTH,
            },
            deadlines,
        };
        let e = EvaluatedPosition::new(self.evaluator, position);
        if bs.moves.len() > 0 {
            let _ = instance.blue_setup_iterative_deepening(&mut bs, &e);
        }
        self.ttable = instance.ttable;
        self.pvtable = instance.pvtable;
        self.killer_moves = instance.killer_moves;
        if bs.moves.len() == 0 {
            return self.blue_setup_fallback(red);
        }
        SearchResultBlueSetup {
            score: bs.score,
            mov: bs.moves[0],
            pv: bs.pv,
            depth: bs.depth,
            root_moves_considered: bs.considered,
            num_root_moves: bs.moves.len(),
            nodes: instance.nodes,
        }
    }

    /// The first arrangement of blue's pieces, unsearched.
    fn blue_setup_fallback(&self, red: SetupMove) -> (r: SearchResultBlueSetup)
        requires
            red.color == Color::Red,
            crate::moves::spec_valid_pieces(red.pieces@),
        ensures
            crate::position::spec_setup_legal(
                crate::position::spec_setup_result(spec_initial_position(), red),
                r.mov,
            ),
            r.mov.color == Color::Blue,
    {
        let mut it = crate::setups::setup_moves(Color::Blue);
        let first = match it.next() {
            Some(m) => m,
            None => SetupMove { color: Color::Blue, pieces: [Piece::Alfil; 16] },
        };
        proof {
            crate::setups::lemma_first_setup_valid();
        }
        SearchResultBlueSetup {
            score: Score(0),
            mov: first,
            pv: LongVariation::empty(),
            depth: 0,
            root_moves_considered: 0,
            num_root_moves: 0,
            nodes: 0,
        }
    }
}

} // verus!
