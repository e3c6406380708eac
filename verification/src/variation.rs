use crate::constants::MAX_VARIATION_LENGTH;
use crate::moves::{spec_regular_text, RegularMove};
use crate::pvtable::{spec_pv_get, spec_pv_set, PVTable};
use crate::smallvec::SmallVec;
use crate::text::{ascii_chars, ascii_string, is_ascii_bytes};
use vstd::prelude::*;

verus! {

/// A line of moves, as far as the kind of variation keeps it.
pub trait Variation: Sized {
    /// The variation keeps within its limits.
    spec fn wf(&self) -> bool;

    /// No moves.
    fn empty() -> Self;

    /// No moves, marked as cut short.
    fn empty_truncated() -> Self;
}

/// A variation that a move can be put in front of.
pub trait ExtendableVariation: Variation {
    type Extended;

    /// The variation with `mov` in front.
    fn add_front(self, mov: RegularMove) -> Self::Extended;

    /// The variation stored in the table for `hash`, if any.
    fn pvtable_get(pvtable: &mut PVTable, hash: u64) -> (r: Option<Self>)
        requires
            old(pvtable).wf(),
        ensures
            final(pvtable).wf(),
            r matches Some(v) ==> v.wf(),
    ;

    /// Stores the variation in the table for `hash`.
    fn pvtable_set(pvtable: &mut PVTable, hash: u64, variation: Self)
        requires
            old(pvtable).wf(),
            variation.wf(),
        ensures
            final(pvtable).wf(),
    ;
}

/// A variation that may start with a move.
pub trait NonEmptyVariation: Variation {
    type Truncated;

    /// The first move.
    fn first(&self) -> Option<RegularMove>;

    /// The variation without its first move, as far as it is kept.
    fn truncate(self) -> Self::Truncated;
}

/// A variation of up to `MAX_VARIATION_LENGTH` moves; `truncated` when moves were dropped
/// from its end.
pub struct LongVariation {
    pub moves: SmallVec<RegularMove, 100>,
    pub truncated: bool,
}

/// The text of moves separated by spaces.
pub open spec fn moves_text(moves: Seq<RegularMove>) -> Seq<u8>
    decreases moves.len(),
{
    if moves.len() == 0 {
        Seq::empty()
    } else if moves.len() == 1 {
        spec_regular_text(moves[0])
    } else {
        moves_text(moves.drop_last()) + seq![32u8] + spec_regular_text(moves.last())
    }
}

/// The text of a variation: its moves separated by spaces, then ` (trunc)` if truncated.
pub open spec fn variation_text(moves: Seq<RegularMove>, truncated: bool) -> Seq<u8> {
    moves_text(moves) + if truncated {
        seq![32u8, 40u8, 116u8, 114u8, 117u8, 110u8, 99u8, 41u8]
    } else {
        Seq::empty()
    }
}

/// None of the moves is a drop that captures, which has no text.
pub open spec fn all_printable(moves: Seq<RegularMove>) -> bool {
    forall|i: int| 0 <= i < moves.len() ==> !((#[trigger] moves[i]).from is None && moves[i].captured is Some)
}

/// The text of a regular move is ASCII.
proof fn lemma_regular_text_ascii(m: RegularMove)
    ensures
        is_ascii_bytes(spec_regular_text(m)),
{
    crate::moves::lemma_regular_text_ascii(m);
}

proof fn lemma_moves_text_ascii(moves: Seq<RegularMove>)
    ensures
        is_ascii_bytes(moves_text(moves)),
    decreases moves.len(),
{
    if moves.len() == 1 {
        lemma_regular_text_ascii(moves[0]);
    } else if moves.len() > 1 {
        lemma_moves_text_ascii(moves.drop_last());
        lemma_regular_text_ascii(moves.last());
        let a = moves_text(moves.drop_last());
        let b = spec_regular_text(moves.last());
        assert forall|i: int| 0 <= i < moves_text(moves).len() implies #[trigger] moves_text(
            moves,
        )[i] < 128 by {
            if i < a.len() {
                assert(moves_text(moves)[i] == a[i]);
            } else if i > a.len() {
                assert(moves_text(moves)[i] == b[i - a.len() - 1]);
            }
        }
    }
}

impl Clone for LongVariation {
    fn clone(&self) -> (r: LongVariation)
        ensures
            r.moves@ == self.moves@,
            r.truncated == self.truncated,
            r.wf() == self.wf(),
    {
        LongVariation { moves: self.moves.clone(), truncated: self.truncated }
    }
}

impl LongVariation {
    /// The text of the variation: its moves separated by spaces, then ` (trunc)` if moves
    /// were dropped.
    pub fn write_ascii(&self, out: &mut Vec<u8>)
        requires
            all_printable(self.moves@),
        ensures
            final(out)@ == old(out)@ + variation_text(self.moves@, self.truncated),
    {
        let n = self.moves.len();
        let mut i: usize = 0;
        while i < n
            invariant
                i <= n,
                n == self.moves@.len(),
                out@ == old(out)@ + moves_text(self.moves@.subrange(0, i as int)),
                all_printable(self.moves@),
            decreases n - i,
        {
            let ghost before = out@;
            if i != 0 {
                out.push(32);
            }
            self.moves.get(i).write_ascii(out);
            proof {
                let s = self.moves@.subrange(0, i + 1);
                assert(s.drop_last() =~= self.moves@.subrange(0, i as int));
                assert(s.last() == self.moves@[i as int]);
                if i == 0 {
                    assert(s.len() == 1);
                    assert(out@ =~= old(out)@ + moves_text(s));
                } else {
                    assert(out@ =~= old(out)@ + moves_text(s));
                }
            }
            i = i + 1;
        }
        assert(self.moves@.subrange(0, n as int) =~= self.moves@);
        if self.truncated {
            out.push(32);
            out.push(40);
            out.push(116);
            out.push(114);
            out.push(117);
            out.push(110);
            out.push(99);
            out.push(41);
        }
        assert(out@ =~= old(out)@ + variation_text(self.moves@, self.truncated));
    }

    /// The text of the variation, as `write_ascii` writes it.
    pub fn to_string(&self) -> (r: String)
        requires
            all_printable(self.moves@),
        ensures
            r@ == ascii_chars(variation_text(self.moves@, self.truncated)),
    {
        let mut out: Vec<u8> = Vec::new();
        self.write_ascii(&mut out);
        proof {
            lemma_moves_text_ascii(self.moves@);
            assert(out@ =~= variation_text(self.moves@, self.truncated));
            assert(is_ascii_bytes(variation_text(self.moves@, self.truncated)));
        }
        ascii_string(out)
    }
}

impl Variation for LongVariation {
    /// At most `MAX_VARIATION_LENGTH` moves.
    open spec fn wf(&self) -> bool {
        self.moves.wf() && self.moves@.len() <= 100
    }

    fn empty() -> (r: LongVariation)
        ensures
            r.moves@ == Seq::<RegularMove>::empty(),
            !r.truncated,
            r.wf(),
    {
        LongVariation { moves: SmallVec::new(), truncated: false }
    }

    fn empty_truncated() -> (r: LongVariation)
        ensures
            r.moves@ == Seq::<RegularMove>::empty(),
            r.truncated,
            r.wf(),
    {
        LongVariation { moves: SmallVec::new(), truncated: true }
    }
}

impl ExtendableVariation for LongVariation {
    type Extended = LongVariation;

    /// `mov` followed by the moves of the variation, cut to `MAX_VARIATION_LENGTH` moves;
    /// truncated when it was, or when a move was dropped.
    fn add_front(self, mov: RegularMove) -> (r: LongVariation)
        ensures
            r.wf(),
            r.moves@ == seq![mov].add(self.moves@).take(
                if self.moves@.len() + 1 <= 100 { self.moves@.len() + 1int } else { 100int },
            ),
            r.truncated == (self.truncated || self.moves@.len() + 1 > 100),
    {
        let mut moves: SmallVec<RegularMove, 100> = SmallVec::new();
        moves.push(mov);
        let mut truncated = false;
        let n = self.moves.len();
        let mut i: usize = 0;
        while i < n
            invariant_except_break
                n == self.moves@.len(),
                i <= n,
                moves@ == seq![mov].add(self.moves@.subrange(0, i as int)),
                moves@.len() <= 100,
                moves.wf(),
                !truncated,
            ensures
                n == self.moves@.len(),
                moves.wf(),
                moves@.len() <= 100,
                truncated ==> n + 1 > 100 && moves@ == seq![mov].add(self.moves@).take(100),
                !truncated ==> n + 1 <= 100 && moves@ == seq![mov].add(self.moves@),
            decreases n - i,
        {
            if moves.len() >= MAX_VARIATION_LENGTH {
                truncated = true;
                proof {
                    assert(moves@ =~= seq![mov].add(self.moves@).take(100));
                }
                break;
            }
            let m = *self.moves.get(i);
            moves.push(m);
            proof {
                assert(moves@ =~= seq![mov].add(self.moves@.subrange(0, i + 1)));
            }
            i = i + 1;
        }
        proof {
            if !truncated {
                assert(seq![mov].add(self.moves@).take(self.moves@.len() + 1int) =~= seq![mov].add(self.moves@));
            }
        }
        LongVariation { moves, truncated: truncated || self.truncated }
    }

    /// The variation stored for `hash`, as `PVTable::get` reads it.
    fn pvtable_get(pvtable: &mut PVTable, hash: u64) -> (r: Option<LongVariation>)
        ensures
            spec_pv_get(*old(pvtable), *final(pvtable), hash, r),
    {
        pvtable.get(hash)
    }

    /// Stores the variation for `hash`, as `PVTable::set` does.
    fn pvtable_set(pvtable: &mut PVTable, hash: u64, variation: LongVariation)
        ensures
            spec_pv_set(*old(pvtable), *final(pvtable), hash, variation),
    {
        pvtable.set(hash, variation)
    }
}

impl NonEmptyVariation for LongVariation {
    type Truncated = LongVariation;

    fn first(&self) -> (r: Option<RegularMove>)
        ensures
            self.moves@.len() == 0 ==> r is None,
            self.moves@.len() > 0 ==> r == Some(self.moves@[0]),
    {
        if self.moves.is_empty() {
            None
        } else {
            Some(*self.moves.get(0))
        }
    }

    /// A long variation is kept whole.
    fn truncate(self) -> (r: LongVariation)
        ensures
            r == self,
    {
        self
    }
}

/// A variation that keeps no move.
#[derive(Debug, Copy, Clone)]
pub struct EmptyVariation;

impl Variation for EmptyVariation {
    open spec fn wf(&self) -> bool {
        true
    }

    fn empty() -> EmptyVariation {
        EmptyVariation
    }

    fn empty_truncated() -> EmptyVariation {
        EmptyVariation
    }
}

impl ExtendableVariation for EmptyVariation {
    type Extended = OneMoveVariation;

    fn add_front(self, mov: RegularMove) -> (r: OneMoveVariation)
        ensures
            r.mov == Some(mov),
    {
        OneMoveVariation { mov: Some(mov) }
    }

    /// Nothing is stored for an empty variation.
    fn pvtable_get(pvtable: &mut PVTable, hash: u64) -> (r: Option<EmptyVariation>)
        ensures
            r is None,
    {
        None
    }

    fn pvtable_set(pvtable: &mut PVTable, hash: u64, variation: EmptyVariation) {
    }
}

/// A variation that keeps its first move only.
#[derive(Debug, Copy, Clone)]
pub struct OneMoveVariation {
    pub mov: Option<RegularMove>,
}

impl Variation for OneMoveVariation {
    open spec fn wf(&self) -> bool {
        true
    }

    fn empty() -> (r: OneMoveVariation)
        ensures
            r.mov is None,
    {
        OneMoveVariation { mov: None }
    }

    fn empty_truncated() -> (r: OneMoveVariation)
        ensures
            r.mov is None,
    {
        OneMoveVariation { mov: None }
    }
}

impl NonEmptyVariation for OneMoveVariation {
    type Truncated = EmptyVariation;

    fn first(&self) -> (r: Option<RegularMove>)
        ensures
            r == self.mov,
    {
        self.mov
    }

    fn truncate(self) -> EmptyVariation {
        EmptyVariation
    }
}

} // verus!
