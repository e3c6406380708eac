use crate::constants::{Eval, Ply};
use crate::parser::{decimal_value, is_digit};
use vstd::prelude::*;

verus! {

/// Bound of all scores: a win now.
pub const INFINITE: i32 = 1000000000;

/// Scores at or above this (in absolute value) are wins (losses) in a number of plies.
pub const WIN_MAX_PLY: i32 = 999999745;

/// A score in readable form: a win or a loss in a number of plies, or an evaluation.
#[derive(Debug, Clone, Copy, PartialEq, Eq, Structural)]
pub enum ScoreExpanded {
    Win(Ply),
    Loss(Ply),
    Eval(Eval),
}

/// `a - b`, but at least 0.
pub open spec fn sat_sub_u8(a: u8, b: u8) -> u8 {
    if a >= b {
        (a - b) as u8
    } else {
        0
    }
}

/// `a + b`, but at most 255.
pub open spec fn sat_add_u8(a: u8, b: u8) -> u8 {
    if a + b <= 255 {
        (a + b) as u8
    } else {
        255
    }
}

/// `a + b`, clamped to the range of `i32`.
pub open spec fn sat_add_i32(a: i32, b: i32) -> i32 {
    if a + b > i32::MAX {
        i32::MAX
    } else if a + b < i32::MIN {
        i32::MIN
    } else {
        (a + b) as i32
    }
}

pub open spec fn spec_expanded_to_relative(s: ScoreExpanded, ply: Ply) -> ScoreExpanded {
    match s {
        ScoreExpanded::Win(p) => ScoreExpanded::Win(sat_sub_u8(p, ply)),
        ScoreExpanded::Loss(p) => ScoreExpanded::Loss(sat_sub_u8(p, ply)),
        ScoreExpanded::Eval(_) => s,
    }
}

pub open spec fn spec_expanded_to_absolute(s: ScoreExpanded, ply: Ply) -> ScoreExpanded {
    match s {
        ScoreExpanded::Win(p) => ScoreExpanded::Win(sat_add_u8(p, ply)),
        ScoreExpanded::Loss(p) => ScoreExpanded::Loss(sat_add_u8(p, ply)),
        ScoreExpanded::Eval(_) => s,
    }
}

pub open spec fn spec_expanded_offset(s: ScoreExpanded, offset: Eval) -> ScoreExpanded {
    match s {
        ScoreExpanded::Eval(e) => ScoreExpanded::Eval(sat_add_i32(e, offset)),
        _ => s,
    }
}

impl ScoreExpanded {
    /// Distances to a win or loss counted from `ply` instead of from the root.
    pub fn to_relative(self, ply: Ply) -> (r: ScoreExpanded)
        ensures
            r == spec_expanded_to_relative(self, ply),
    {
        match self {
            ScoreExpanded::Win(p) => ScoreExpanded::Win(p.saturating_sub(ply)),
            ScoreExpanded::Loss(p) => ScoreExpanded::Loss(p.saturating_sub(ply)),
            ScoreExpanded::Eval(_) => self,
        }
    }

    /// Distances to a win or loss counted from the root instead of from `ply`.
    pub fn to_absolute(self, ply: Ply) -> (r: ScoreExpanded)
        ensures
            r == spec_expanded_to_absolute(self, ply),
    {
        match self {
            ScoreExpanded::Win(p) => ScoreExpanded::Win(p.saturating_add(ply)),
            ScoreExpanded::Loss(p) => ScoreExpanded::Loss(p.saturating_add(ply)),
            ScoreExpanded::Eval(_) => self,
        }
    }

    /// An evaluation shifted by `offset`; wins and losses unchanged.
    pub fn offset(self, offset: Eval) -> (r: ScoreExpanded)
        ensures
            r == spec_expanded_offset(self, offset),
    {
        match self {
            ScoreExpanded::Eval(eval) => {
                let sum = eval as i64 + offset as i64;
                let v: i32 = if sum > i32::MAX as i64 {
                    i32::MAX
                } else if sum < i32::MIN as i64 {
                    i32::MIN
                } else {
                    sum as i32
                };
                ScoreExpanded::Eval(v)
            },
            _ => self,
        }
    }

    /// The text of the score: `#n` for a win in n plies, `-#n` for a loss, else the
    /// evaluation, in decimal.
    pub fn write_ascii(&self, out: &mut Vec<u8>)
        ensures
            final(out)@ == old(out)@ + spec_expanded_text(*self),
    {
        match *self {
            ScoreExpanded::Win(d) => {
                out.push(35);
                write_decimal(out, d as i64);
            },
            ScoreExpanded::Loss(d) => {
                out.push(45);
                out.push(35);
                write_decimal(out, d as i64);
            },
            ScoreExpanded::Eval(e) => {
                write_decimal(out, e as i64);
            },
        }
    }
}

/// Decimal digits of a natural number, most significant first.
pub open spec fn spec_digits(n: nat) -> Seq<u8>
    decreases n,
{
    if n < 10 {
        seq![(48 + n) as u8]
    } else {
        spec_digits(n / 10).push((48 + n % 10) as u8)
    }
}

/// Decimal text of an integer, with a leading `-` when negative.
pub open spec fn spec_decimal(v: int) -> Seq<u8> {
    if v < 0 {
        seq![45u8] + spec_digits((-v) as nat)
    } else {
        spec_digits(v as nat)
    }
}

pub open spec fn spec_expanded_text(s: ScoreExpanded) -> Seq<u8> {
    match s {
        ScoreExpanded::Win(d) => seq![35u8] + spec_decimal(d as int),
        ScoreExpanded::Loss(d) => seq![45u8, 35u8] + spec_decimal(d as int),
        ScoreExpanded::Eval(e) => spec_decimal(e as int),
    }
}

/// Appends the decimal digits of `n`.
fn write_digits(out: &mut Vec<u8>, n: u64)
    ensures
        final(out)@ == old(out)@ + spec_digits(n as nat),
    decreases n,
{
    if n < 10 {
        out.push((48 + n) as u8);
    } else {
        write_digits(out, n / 10);
        out.push((48 + n % 10) as u8);
        proof {
            assert(old(out)@ + spec_digits((n / 10) as nat) + seq![(48 + n % 10) as u8] =~= old(out)@
                + spec_digits(n as nat));
        }
    }
}

/// Appends the decimal text of `v`.
pub fn write_decimal(out: &mut Vec<u8>, v: i64)
    requires
        v > i64::MIN,
    ensures
        final(out)@ == old(out)@ + spec_decimal(v as int),
{
    if v < 0 {
        out.push(45);
        write_digits(out, (-v) as u64);
        proof {
            assert(old(out)@.push(45u8) + spec_digits((-v) as nat) =~= old(out)@ + (seq![45u8]
                + spec_digits((-v) as nat)));
        }
    } else {
        write_digits(out, v as u64);
    }
}

/// A score: an evaluation, or a win or loss in a number of plies, packed in one integer.
#[derive(Debug, Clone, Copy, PartialEq, Eq, Hash, PartialOrd, Ord, Structural)]
pub struct Score(pub i32);

/// `v` clamped to `[lo, hi]`.
pub open spec fn clamp(v: int, lo: int, hi: int) -> int {
    if v < lo {
        lo
    } else if v > hi {
        hi
    } else {
        v
    }
}

/// The readable form of a score.
pub open spec fn spec_expand(s: Score) -> ScoreExpanded {
    if s.0 >= WIN_MAX_PLY {
        ScoreExpanded::Win(if 0 <= INFINITE - s.0 <= 255 { (INFINITE - s.0) as u8 } else { 0 })
    } else if s.0 <= -WIN_MAX_PLY {
        ScoreExpanded::Loss(if 0 <= INFINITE + s.0 <= 255 { (INFINITE + s.0) as u8 } else { 0 })
    } else {
        ScoreExpanded::Eval(s.0)
    }
}

/// The score of a readable form; evaluations are clamped below the win range.
pub open spec fn spec_pack(e: ScoreExpanded) -> Score {
    match e {
        ScoreExpanded::Win(p) => Score((INFINITE - p) as i32),
        ScoreExpanded::Loss(p) => Score((-INFINITE + p) as i32),
        ScoreExpanded::Eval(v) => Score(clamp(v as int, -WIN_MAX_PLY + 1, WIN_MAX_PLY - 1) as i32),
    }
}

impl ScoreExpanded {
    /// The readable form of a score.
    pub fn from_score(score: Score) -> (r: ScoreExpanded)
        ensures
            r == spec_expand(score),
    {
        if score.0 >= WIN_MAX_PLY {
            let d = INFINITE as i64 - score.0 as i64;
            ScoreExpanded::Win(
                if 0 <= d && d <= 255 {
                    d as u8
                } else {
                    0
                },
            )
        } else if score.0 <= -WIN_MAX_PLY {
            let d = INFINITE as i64 + score.0 as i64;
            ScoreExpanded::Loss(
                if 0 <= d && d <= 255 {
                    d as u8
                } else {
                    0
                },
            )
        } else {
            ScoreExpanded::Eval(score.0)
        }
    }
}

impl Score {
    /// The best score: a win now.
    pub fn infinite() -> (r: Score)
        ensures
            r.0 == INFINITE,
    {
        Score(INFINITE)
    }

    /// The score of a draw.
    pub fn draw() -> (r: Score)
        ensures
            r.0 == 0,
    {
        Score(0)
    }

    /// The score of a readable form; evaluations are clamped below the win range.
    pub fn from_expanded(e: ScoreExpanded) -> (r: Score)
        ensures
            r == spec_pack(e),
    {
        match e {
            ScoreExpanded::Win(p) => Score(INFINITE - p as i32),
            ScoreExpanded::Loss(p) => Score(-INFINITE + p as i32),
            ScoreExpanded::Eval(v) => {
                if v < -WIN_MAX_PLY + 1 {
                    Score(-WIN_MAX_PLY + 1)
                } else if v > WIN_MAX_PLY - 1 {
                    Score(WIN_MAX_PLY - 1)
                } else {
                    Score(v)
                }
            },
        }
    }

    /// The score of an evaluation, clamped below the win range.
    pub fn from_eval(eval: Eval) -> (r: Score)
        ensures
            r == spec_pack(ScoreExpanded::Eval(eval)),
    {
        Score::from_expanded(ScoreExpanded::Eval(eval))
    }

    /// The next higher score, at most `INFINITE`.
    pub fn next(self) -> (r: Score)
        ensures
            r.0 == if self.0 + 1 <= INFINITE { self.0 + 1 } else { INFINITE as int },
    {
        if self.0 < INFINITE {
            Score(self.0 + 1)
        } else {
            Score(INFINITE)
        }
    }

    /// The next lower score, at least `-INFINITE`.
    pub fn prev(self) -> (r: Score)
        ensures
            r.0 == if self.0 - 1 >= -INFINITE { self.0 - 1 } else { -INFINITE as int },
    {
        if self.0 > -INFINITE {
            Score(self.0 - 1)
        } else {
            Score(-INFINITE)
        }
    }

    /// The score seen from the other side.
    pub fn neg(self) -> (r: Score)
        requires
            self.0 > i32::MIN,
        ensures
            r.0 == -self.0,
    {
        Score(-self.0)
    }

    /// Win and loss distances counted from `ply` instead of from the root.
    pub fn to_relative(self, ply: Ply) -> (r: Score)
        ensures
            r == spec_pack(spec_expanded_to_relative(spec_expand(self), ply)),
    {
        Score::from_expanded(ScoreExpanded::from_score(self).to_relative(ply))
    }

    /// Win and loss distances counted from the root instead of from `ply`.
    pub fn to_absolute(self, ply: Ply) -> (r: Score)
        ensures
            r == spec_pack(spec_expanded_to_absolute(spec_expand(self), ply)),
    {
        Score::from_expanded(ScoreExpanded::from_score(self).to_absolute(ply))
    }

    /// An evaluation shifted by `offset`; wins and losses unchanged.
    pub fn offset(self, offset: Eval) -> (r: Score)
        ensures
            r == spec_pack(spec_expanded_offset(spec_expand(self), offset)),
    {
        Score::from_expanded(ScoreExpanded::from_score(self).offset(offset))
    }

    /// The text of the score, as that of its readable form.
    pub fn write_ascii(&self, out: &mut Vec<u8>)
        ensures
            final(out)@ == old(out)@ + spec_expanded_text(spec_expand(*self)),
    {
        ScoreExpanded::from_score(*self).write_ascii(out)
    }
}

/// Packing the readable form of a score gives the score back, for every score within
/// `[-INFINITE, INFINITE]`.
pub proof fn lemma_pack_expand(s: Score)
    requires
        -INFINITE <= s.0 <= INFINITE,
    ensures
        spec_pack(spec_expand(s)) == s,
{
}

/// Expanding a packed win or loss gives it back; so does an evaluation below the win range.
pub proof fn lemma_expand_pack(e: ScoreExpanded)
    requires
        e matches ScoreExpanded::Eval(v) ==> -WIN_MAX_PLY < v < WIN_MAX_PLY,
    ensures
        spec_expand(spec_pack(e)) == e,
{
}

/// The score seen from the other side is a loss where the score is a win, in the same
/// number of plies, and the negated evaluation otherwise.
pub proof fn lemma_expand_neg(s: Score)
    requires
        -INFINITE <= s.0 <= INFINITE,
    ensures
        spec_expand(Score((-s.0) as i32)) == match spec_expand(s) {
            ScoreExpanded::Win(p) => ScoreExpanded::Loss(p),
            ScoreExpanded::Loss(p) => ScoreExpanded::Win(p),
            ScoreExpanded::Eval(v) => ScoreExpanded::Eval((-v) as i32),
        },
{
}

/// Counting a win or loss distance from `ply` and then from the root again gives the score
/// back, wherever the distance is at least `ply` (so that nothing was cut off at zero).
pub proof fn lemma_relative_absolute(s: Score, ply: Ply)
    requires
        -INFINITE <= s.0 <= INFINITE,
        spec_expand(s) matches ScoreExpanded::Win(p) ==> p >= ply,
        spec_expand(s) matches ScoreExpanded::Loss(p) ==> p >= ply,
    ensures
        spec_pack(
            spec_expanded_to_absolute(
                spec_expand(spec_pack(spec_expanded_to_relative(spec_expand(s), ply))),
                ply,
            ),
        ) == s,
{
    let e = spec_expand(s);
    let r = spec_expanded_to_relative(e, ply);
    lemma_expand_pack(r);
    assert(spec_expanded_to_absolute(r, ply) == e);
    lemma_pack_expand(s);
}

/// The decimal digits of `n` are digits and read back as `n`.
pub proof fn lemma_digits_text(n: nat)
    ensures
        forall|j: int| 0 <= j < spec_digits(n).len() ==> is_digit(#[trigger] spec_digits(n)[j]),
        decimal_value(spec_digits(n)) == n,
        spec_digits(n).len() >= 1,
    decreases n,
{
    let d = spec_digits(n);
    if n < 10 {
        assert(d.drop_last() =~= Seq::<u8>::empty());
        assert(decimal_value(d) == decimal_value(d.drop_last()) * 10 + (d.last() - 48) as nat);
    } else {
        lemma_digits_text(n / 10);
        assert(d.drop_last() =~= spec_digits(n / 10));
        assert(d.last() == (48 + n % 10) as u8);
        assert(decimal_value(d) == decimal_value(d.drop_last()) * 10 + (d.last() - 48) as nat);
        assert(n == (n / 10) * 10 + n % 10);
        assert forall|j: int| 0 <= j < d.len() implies is_digit(#[trigger] d[j]) by {
            if j < d.len() - 1 {
                assert(d[j] == spec_digits(n / 10)[j]);
            }
        }
    }
}

} // verus!
