use crate::constants::Ply;
use crate::position::{spec_position_hash, Position};
use vstd::prelude::*;

verus! {

/// The positions of a game line, by hash, for finding repetitions. Positions are recorded
/// at consecutive plies from a starting ply; a cut marks a ply before which no position
/// can repeat (the move into it was irreversible).
#[derive(Clone, Debug)]
pub struct History {
    start: Ply,
    hashes: Vec<u64>,
    cuts: Vec<Ply>,
}

impl History {
    /// The first ply recorded.
    pub closed spec fn start(self) -> nat {
        self.start as nat
    }

    /// The recorded hashes; the one at index `k` is that of ply `start + k`.
    pub closed spec fn hashes(self) -> Seq<u64> {
        self.hashes@
    }

    /// The cuts, oldest first.
    pub closed spec fn cuts(self) -> Seq<nat> {
        self.cuts@.map_values(|c: u8| c as nat)
    }

    /// The ply the next recorded position gets.
    pub open spec fn next_ply(self) -> nat {
        self.start() + self.hashes().len()
    }

    /// The ply from which repetitions are looked for: the last cut, or the start.
    pub open spec fn search_from(self) -> nat {
        if self.cuts().len() == 0 {
            self.start()
        } else {
            self.cuts().last()
        }
    }

    /// The last recorded position occurred already, with the same side to move, at a ply
    /// from the last cut on.
    pub open spec fn repeats(self) -> bool {
        &&& self.hashes().len() > 0
        &&& exists|k: int|
            self.search_from() - self.start() <= k < self.hashes().len() - 1 && (self.hashes().len() - 1 - k) % 2
                == 0 && #[trigger] self.hashes()[k] == self.hashes().last()
    }

    /// A position with `hash`, recorded next, would repeat one from the last cut on with the
    /// same side to move.
    pub open spec fn repeats_after(self, hash: u64) -> bool {
        exists|k: int|
            self.search_from() - self.start() <= k < self.hashes().len() && (self.hashes().len() - k) % 2 == 0
                && #[trigger] self.hashes()[k] == hash
    }

    /// The cuts are in order, between the start and the next ply, which fits in a `Ply`.
    pub closed spec fn wf(self) -> bool {
        &&& self.start + self.hashes@.len() <= 255
        &&& forall|i: int|
            0 <= i < self.cuts@.len() ==> self.start <= #[trigger] self.cuts@[i] <= self.start
                + self.hashes@.len()
        &&& forall|i: int, j: int| 0 <= i < j < self.cuts@.len() ==> self.cuts@[i] <= self.cuts@[j]
    }

    /// An empty history whose first position will be at ply `start`.
    pub fn new(start: Ply) -> (r: History)
        ensures
            r.wf(),
            r.start() == start,
            r.hashes() == Seq::<u64>::empty(),
            r.cuts() == Seq::<nat>::empty(),
    {
        let r = History { start, hashes: Vec::new(), cuts: Vec::new() };
        assert(r.cuts() =~= Seq::<nat>::empty());
        r
    }

    /// A history that starts with `position`, at its ply.
    pub fn new_from_position(position: &Position) -> (r: History)
        ensures
            r.wf(),
            r.start() == position@.1,
            r.hashes() == seq![spec_position_hash(position@)],
            r.cuts() == Seq::<nat>::empty(),
    {
        let mut r = History::new(position.ply());
        r.push(position.hash());
        r
    }

    /// A copy of the history.
    pub fn copy(&self) -> (r: History)
        ensures
            r.start() == self.start(),
            r.hashes() == self.hashes(),
            r.cuts() == self.cuts(),
            self.wf() ==> r.wf(),
    {
        let r = History { start: self.start, hashes: self.hashes.clone(), cuts: self.cuts.clone() };
        proof {
            assert(r.hashes@ =~= self.hashes@);
            assert(r.cuts@ =~= self.cuts@);
            assert(r.cuts() =~= self.cuts());
        }
        r
    }

    /// The ply the next recorded position gets.
    pub fn ply(&self) -> (r: Ply)
        requires
            self.wf(),
        ensures
            r == self.next_ply(),
    {
        self.start + self.hashes.len() as u8
    }

    /// Records the hash of the position at the next ply.
    pub fn push(&mut self, hash: u64)
        requires
            old(self).wf(),
            old(self).next_ply() < 255,
        ensures
            final(self).wf(),
            final(self).start() == old(self).start(),
            final(self).hashes() == old(self).hashes().push(hash),
            final(self).cuts() == old(self).cuts(),
    {
        self.hashes.push(hash);
    }

    /// Records the position at the next ply.
    pub fn push_position(&mut self, position: &Position)
        requires
            old(self).wf(),
            old(self).next_ply() < 255,
        ensures
            final(self).wf(),
            final(self).start() == old(self).start(),
            final(self).hashes() == old(self).hashes().push(spec_position_hash(position@)),
            final(self).cuts() == old(self).cuts(),
    {
        self.push(position.hash());
    }

    /// Marks the next ply as the first after an irreversible move: no position before it
    /// is looked at for repetitions any more.
    pub fn cut(&mut self)
        requires
            old(self).wf(),
        ensures
            final(self).wf(),
            final(self).start() == old(self).start(),
            final(self).hashes() == old(self).hashes(),
            final(self).cuts() == old(self).cuts().push(old(self).next_ply()),
    {
        let p = self.start + self.hashes.len() as u8;
        self.cuts.push(p);
        proof {
            assert(self.cuts() =~= old(self).cuts().push(old(self).next_ply()));
        }
    }

    /// Removes the last cut, if there is one.
    pub fn uncut(&mut self)
        requires
            old(self).wf(),
        ensures
            final(self).wf(),
            final(self).start() == old(self).start(),
            final(self).hashes() == old(self).hashes(),
            final(self).cuts() == if old(self).cuts().len() == 0 {
                old(self).cuts()
            } else {
                old(self).cuts().drop_last()
            },
    {
        if self.cuts.len() > 0 {
            self.cuts.pop();
            proof {
                assert(self.cuts() =~= old(self).cuts().drop_last());
            }
        }
    }

    /// The last cut, if any.
    pub fn last_cut(&self) -> (r: Option<Ply>)
        requires
            self.wf(),
        ensures
            r is None <==> self.cuts().len() == 0,
            r matches Some(c) ==> c == self.cuts().last(),
    {
        if self.cuts.len() == 0 {
            None
        } else {
            Some(self.cuts[self.cuts.len() - 1])
        }
    }

    /// Records the hash of a position reached by an irreversible move.
    pub fn push_irreversible(&mut self, hash: u64)
        requires
            old(self).wf(),
            old(self).next_ply() < 255,
        ensures
            final(self).wf(),
            final(self).start() == old(self).start(),
            final(self).hashes() == old(self).hashes().push(hash),
            final(self).cuts() == old(self).cuts().push(old(self).next_ply()),
    {
        self.cut();
        self.push(hash);
    }

    /// Records a position reached by an irreversible move.
    pub fn push_position_irreversible(&mut self, position: &Position)
        requires
            old(self).wf(),
            old(self).next_ply() < 255,
        ensures
            final(self).wf(),
            final(self).start() == old(self).start(),
            final(self).hashes() == old(self).hashes().push(spec_position_hash(position@)),
            final(self).cuts() == old(self).cuts().push(old(self).next_ply()),
    {
        self.push_irreversible(position.hash());
    }

    /// Forgets the last recorded position, and the cut made when it was recorded (a cut at
    /// its ply), if any. No cut may lie beyond the ply forgotten.
    pub fn pop(&mut self)
        requires
            old(self).wf(),
            old(self).hashes().len() > 0,
            forall|i: int|
                0 <= i < old(self).cuts().len() ==> #[trigger] old(self).cuts()[i] < old(
                    self,
                ).next_ply(),
        ensures
            final(self).wf(),
            final(self).start() == old(self).start(),
            final(self).hashes() == old(self).hashes().drop_last(),
            final(self).cuts() == spec_pop_cuts(old(self).cuts(), (old(self).next_ply() - 1) as nat),
    {
        self.hashes.pop();
        let q = self.start + self.hashes.len() as u8;
        let n = self.cuts.len();
        if n > 0 && self.cuts[n - 1] == q {
            self.cuts.pop();
            proof {
                assert(self.cuts() =~= old(self).cuts().drop_last());
            }
        }
        proof {
            assert forall|i: int| 0 <= i < self.cuts@.len() implies self.cuts@[i] <= self.start
                + self.hashes@.len() by {
                assert(old(self).cuts()[i] == old(self).cuts@[i]);
            }
        }
    }

    /// The most recent ply, from the last cut on, at which a position with `hash` was
    /// recorded.
    pub fn find(&self, hash: u64) -> (r: Option<Ply>)
        requires
            self.wf(),
        ensures
            r matches Some(p) ==> self.search_from() <= p < self.next_ply() && self.hashes()[p
                - self.start()] == hash && forall|k: int|
                p - self.start() < k < self.hashes().len() ==> #[trigger] self.hashes()[k] != hash,
            r is None ==> forall|k: int|
                self.search_from() - self.start() <= k < self.hashes().len() ==> #[trigger] self.hashes()[k]
                    != hash,
    {
        proof {
            
            if self.cuts@.len() > 0 {
                assert(self.cuts()[self.cuts@.len() - 1] == self.cuts@[self.cuts@.len() - 1]);
            }
        }
        let from: usize = match self.last_cut() {
            None => 0,
            Some(c) => (c - self.start) as usize,
        };
        let mut k: usize = self.hashes.len();
        while k > from
            invariant
                from <= k <= self.hashes@.len(),
                from == self.search_from() - self.start(),
                self.start() + self.hashes@.len() <= 255,
                forall|q: int| k <= q < self.hashes@.len() ==> self.hashes@[q] != hash,
            decreases k,
        {
            k = k - 1;
            if self.hashes[k] == hash {
                return Some(self.start + k as u8);
            }
        }
        None
    }

    /// The most recent earlier ply, from the last cut on and with the same side to move,
    /// at which the last recorded position occurred already.
    pub fn find_repetition(&self) -> (r: Option<Ply>)
        requires
            self.wf(),
        ensures
            self.hashes().len() == 0 ==> r is None,
            self.hashes().len() > 0 ==> {
                let last = self.next_ply() - 1;
                let h = self.hashes().last();
                &&& r matches Some(p) ==> self.search_from() <= p && p < last && (last - p) % 2 == 0
                    && self.hashes()[p - self.start()] == h && forall|k: int|
                    p - self.start() < k < last - self.start() && (last - self.start() - k) % 2 == 0
                        ==> #[trigger] self.hashes()[k] != h
                &&& r is None ==> forall|k: int|
                    self.search_from() - self.start() <= k < last - self.start() && (last - self.start()
                        - k) % 2 == 0 ==> #[trigger] self.hashes()[k] != h
            },
            r is None <==> !self.repeats(),
    {
        proof {
            
            if self.cuts@.len() > 0 {
                assert(self.cuts()[self.cuts@.len() - 1] == self.cuts@[self.cuts@.len() - 1]);
            }
        }
        if self.hashes.len() == 0 {
            return None;
        }
        let last = self.hashes.len() - 1;
        let hash = self.hashes[last];
        let from: usize = match self.last_cut() {
            None => 0,
            Some(c) => (c - self.start) as usize,
        };
        let mut k: usize = last;
        while k >= from + 2
            invariant
                k <= last,
                last == self.hashes@.len() - 1,
                (last - k) % 2 == 0,
                hash == self.hashes@[last as int],
                from == self.search_from() - self.start(),
                self.start() + self.hashes@.len() <= 255,
                forall|q: int| k <= q < last && (last - q) % 2 == 0 ==> self.hashes@[q] != hash,
            decreases k,
        {
            k = k - 2;
            if self.hashes[k] == hash {
                return Some(self.start + k as u8);
            }
        }
        None
    }

    /// The last recorded position was reached by an irreversible move.
    pub fn last_move_irreversible(&self) -> (r: bool)
        requires
            self.wf(),
        ensures
            r == (self.hashes().len() > 0 && self.cuts().len() > 0 && self.cuts().last()
                == self.next_ply() - 1),
    {
        match self.last_cut() {
            None => false,
            Some(c) => self.hashes.len() > 0 && c as usize == self.start as usize + self.hashes.len() - 1,
        }
    }
}

/// The cuts left when the position at ply `q` is forgotten: a last cut at `q` goes.
pub open spec fn spec_pop_cuts(cuts: Seq<nat>, q: nat) -> Seq<nat> {
    if cuts.len() > 0 && cuts.last() == q {
        cuts.drop_last()
    } else {
        cuts
    }
}

/// Recording a position and forgetting it again leaves the history as it was (when no
/// cut waits at the ply recorded).
pub proof fn lemma_push_pop(h: History, hash: u64)
    requires
        h.cuts().len() == 0 || h.cuts().last() < h.next_ply(),
    ensures
        h.hashes().push(hash).drop_last() == h.hashes(),
        spec_pop_cuts(h.cuts(), h.next_ply()) == h.cuts(),
{
    assert(h.hashes().push(hash).drop_last() =~= h.hashes());
}

/// Recording a position reached by an irreversible move and forgetting it again leaves
/// the history as it was: the cut goes with the position.
pub proof fn lemma_push_irreversible_pop(h: History, hash: u64)
    ensures
        h.hashes().push(hash).drop_last() == h.hashes(),
        spec_pop_cuts(h.cuts().push(h.next_ply()), h.next_ply()) == h.cuts(),
{
    assert(h.hashes().push(hash).drop_last() =~= h.hashes());
    assert(h.cuts().push(h.next_ply()).drop_last() =~= h.cuts());
}

/// A cut followed by its removal leaves the cuts as they were.
pub proof fn lemma_cut_uncut(h: History)
    ensures
        h.cuts().push(h.next_ply()).drop_last() == h.cuts(),
{
    assert(h.cuts().push(h.next_ply()).drop_last() =~= h.cuts());
}

/// The hashes and cuts after recording positions at the plies that follow, from a
/// history that starts at `start`: each entry is a hash and whether the move into that
/// position was irreversible (as `push_irreversible` records it), or not (as `push`).
pub open spec fn spec_push_all(start: nat, hashes: Seq<u64>, cuts: Seq<nat>, pushes: Seq<(u64, bool)>) -> (Seq<
    u64,
>, Seq<nat>)
    decreases pushes.len(),
{
    if pushes.len() == 0 {
        (hashes, cuts)
    } else {
        let next_cuts = if pushes[0].1 {
            cuts.push(start + hashes.len())
        } else {
            cuts
        };
        spec_push_all(start, hashes.push(pushes[0].0), next_cuts, pushes.drop_first())
    }
}

/// The hashes and cuts after forgetting the last `n` recorded positions, one `pop` at a
/// time.
pub open spec fn spec_pop_all(start: nat, hashes: Seq<u64>, cuts: Seq<nat>, n: nat) -> (Seq<u64>, Seq<nat>)
    decreases n,
{
    if n == 0 {
        (hashes, cuts)
    } else {
        let before = spec_pop_all(start, hashes, cuts, (n - 1) as nat);
        (before.0.drop_last(), spec_pop_cuts(before.1, (start + before.0.len() - 1) as nat))
    }
}

proof fn lemma_push_all_pop_all(start: nat, hashes: Seq<u64>, cuts: Seq<nat>, pushes: Seq<(u64, bool)>)
    requires
        forall|i: int| 0 <= i < cuts.len() ==> #[trigger] cuts[i] < start + hashes.len(),
    ensures
        ({
            let after = spec_push_all(start, hashes, cuts, pushes);
            spec_pop_all(start, after.0, after.1, pushes.len()) == (hashes, cuts)
        }),
    decreases pushes.len(),
{
    if pushes.len() > 0 {
        let hashes1 = hashes.push(pushes[0].0);
        let cuts1 = if pushes[0].1 {
            cuts.push(start + hashes.len())
        } else {
            cuts
        };
        let rest = pushes.drop_first();
        assert forall|i: int| 0 <= i < cuts1.len() implies #[trigger] cuts1[i] < start + hashes1.len() by {
            if i < cuts.len() {
                assert(cuts1[i] == cuts[i]);
            }
        }
        lemma_push_all_pop_all(start, hashes1, cuts1, rest);
        let after = spec_push_all(start, hashes, cuts, pushes);
        assert(after == spec_push_all(start, hashes1, cuts1, rest));
        assert(spec_pop_all(start, after.0, after.1, rest.len()) == (hashes1, cuts1));
        assert(hashes1.drop_last() =~= hashes);
        if pushes[0].1 {
            assert(cuts1.drop_last() =~= cuts);
        } else if cuts.len() > 0 {
            assert(cuts.last() < start + hashes.len());
        }
        assert(spec_pop_all(start, after.0, after.1, pushes.len()) == (hashes1.drop_last(), spec_pop_cuts(
            cuts1,
            (start + hashes1.len() - 1) as nat,
        )));
    }
}

/// Recording any positions, reversible or not, and then forgetting as many gives back the
/// history as it was: its hashes and its cuts, and so what `find`, `find_repetition` and
/// `last_move_irreversible` answer. Positions hidden behind an irreversible move count for
/// repetitions again once it is forgotten. (A cut waiting at the next ply, made by `cut`
/// with nothing recorded after it, would be taken by the last `pop`: it is ruled out.)
pub proof fn lemma_pushes_then_pops(h: History, pushes: Seq<(u64, bool)>)
    requires
        h.wf(),
        forall|i: int| 0 <= i < h.cuts().len() ==> #[trigger] h.cuts()[i] < h.next_ply(),
    ensures
        ({
            let after = spec_push_all(h.start(), h.hashes(), h.cuts(), pushes);
            spec_pop_all(h.start(), after.0, after.1, pushes.len()) == (h.hashes(), h.cuts())
        }),
{
    lemma_push_all_pop_all(h.start(), h.hashes(), h.cuts(), pushes);
}

/// Recording a position repeats an earlier one exactly when its hash would: the question
/// `repeats_after` asks before the position is recorded, `repeats` answers after.
pub proof fn lemma_push_repeats(h0: History, h1: History, hash: u64)
    requires
        h0.wf(),
        h1.start() == h0.start(),
        h1.hashes() == h0.hashes().push(hash),
        h1.cuts() == h0.cuts(),
    ensures
        h1.repeats() <==> h0.repeats_after(hash),
{
    if h1.repeats() {
        let k = choose|k: int|
            h1.search_from() - h1.start() <= k < h1.hashes().len() - 1 && (h1.hashes().len() - 1 - k) % 2 == 0
                && #[trigger] h1.hashes()[k] == h1.hashes().last();
        assert(h0.hashes()[k] == hash);
    }
    if h0.repeats_after(hash) {
        let k = choose|k: int|
            h0.search_from() - h0.start() <= k < h0.hashes().len() && (h0.hashes().len() - k) % 2 == 0
                && #[trigger] h0.hashes()[k] == hash;
        assert(h1.hashes()[k] == hash);
    }
}

/// A position just reached by an irreversible move repeats nothing.
pub proof fn lemma_cut_no_repeat(h: History)
    requires
        h.hashes().len() > 0,
        h.cuts().len() > 0,
        h.cuts().last() == h.next_ply() - 1,
    ensures
        !h.repeats(),
{
}

} // verus!
