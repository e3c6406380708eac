use crate::constants::Depth;
use crate::moves::RegularMove;
use crate::score::Score;
use vstd::prelude::*;

verus! {

/// Memory taken by one bucket of four entries.
pub const TTABLE_BUCKET_BYTES: usize = 64;

/// What a stored score says of the true score.
#[derive(Debug, Copy, Clone, PartialEq, Eq, Structural)]
pub enum TTableScoreType {
    NoScore,
    Exact,
    LowerBound,
    UpperBound,
}

/// A stored score with what it says of the true score.
#[derive(Debug, Copy, Clone, PartialEq, Eq, Structural)]
pub enum TTableScore {
    NoScore,
    Exact(Score),
    LowerBound(Score),
    UpperBound(Score),
}

impl TTableScore {
    /// Which kind of bound the score is.
    pub fn score_type(&self) -> (r: TTableScoreType)
        ensures
            r == match *self {
                TTableScore::NoScore => TTableScoreType::NoScore,
                TTableScore::Exact(_) => TTableScoreType::Exact,
                TTableScore::LowerBound(_) => TTableScoreType::LowerBound,
                TTableScore::UpperBound(_) => TTableScoreType::UpperBound,
            },
    {
        match *self {
            TTableScore::NoScore => TTableScoreType::NoScore,
            TTableScore::Exact(_) => TTableScoreType::Exact,
            TTableScore::LowerBound(_) => TTableScoreType::LowerBound,
            TTableScore::UpperBound(_) => TTableScoreType::UpperBound,
        }
    }
}

/// What the table stores for a position: the depth searched, the best move and the score.
#[derive(Debug, Copy, Clone, PartialEq, Eq, Structural)]
pub struct TTableEntry {
    pub depth: Depth,
    pub mov: Option<RegularMove>,
    pub score: TTableScore,
}

/// A slot of the table: the tag of the position (the high half of its hash), the epoch of
/// the search that last used it, and the entry.
#[derive(Debug, Copy, Clone, PartialEq, Eq, Structural)]
pub struct Slot {
    pub tag: u32,
    pub epoch: u8,
    pub entry: TTableEntry,
}

/// A transposition table: buckets of four slots. The low bits of a hash pick the bucket
/// (their number is a power of two); the high half is the tag kept in the slot.
pub struct TTable {
    slots: Vec<Slot>,
    num_buckets: usize,
    epoch: u8,
}

/// `n` is a power of two.
pub open spec fn is_power_of_two(n: nat) -> bool
    decreases n,
{
    if n == 1 {
        true
    } else if n == 0 || n % 2 == 1 {
        false
    } else {
        is_power_of_two(n / 2)
    }
}

/// The bucket of a hash in a table of `n` buckets.
pub open spec fn bucket_of(hash: u64, n: nat) -> int {
    (hash as int) % (n as int)
}

/// The tag of a hash: its high half.
pub open spec fn tag_of(hash: u64) -> u32 {
    (hash as int / 0x1_0000_0000) as u32
}

/// The slots of bucket `b`.
pub open spec fn bucket_slots<T>(slots: Seq<T>, b: int) -> Seq<T> {
    slots.subrange(4 * b, 4 * b + 4)
}

/// Preference of a slot when storing an entry with `tag` in epoch `epoch`: a slot with
/// the same tag first, then one not used in this epoch, then the one of least depth.
pub open spec fn slot_key(s: Slot, tag: u32, epoch: u8) -> int {
    (if s.tag == tag { 2int } else { 0int }) * 0x10000 + (if s.epoch != epoch { 1int } else { 0int }) * 0x10000
        + (0xffff - s.entry.depth)
}

/// Slot `k` is where an entry with `tag` is stored in `bucket`: the last slot of highest
/// preference.
pub open spec fn is_chosen_slot(bucket: Seq<Slot>, tag: u32, epoch: u8, k: int) -> bool {
    &&& 0 <= k < bucket.len()
    &&& forall|j: int| 0 <= j < bucket.len() ==> slot_key(#[trigger] bucket[j], tag, epoch) <= slot_key(bucket[k], tag, epoch)
    &&& forall|j: int| k < j < bucket.len() ==> slot_key(#[trigger] bucket[j], tag, epoch) < slot_key(bucket[k], tag, epoch)
}

/// Where a new entry with `tag` may go in `bucket` in epoch `epoch`: over the slot that
/// holds the tag when one does; else over a slot not used in this epoch when there is one;
/// else over a slot of least depth, so that no shallower entry stays while a deeper one
/// goes.
pub open spec fn replacement_allowed(bucket: Seq<Slot>, tag: u32, epoch: u8, k: int) -> bool {
    &&& 0 <= k < bucket.len()
    &&& (exists|j: int| 0 <= j < bucket.len() && (#[trigger] bucket[j]).tag == tag) ==> bucket[k].tag == tag
    &&& (no_match(bucket, tag) && exists|j: int| 0 <= j < bucket.len() && (#[trigger] bucket[j]).epoch != epoch)
        ==> bucket[k].epoch != epoch
    &&& (no_match(bucket, tag) && forall|j: int| 0 <= j < bucket.len() ==> (#[trigger] bucket[j]).epoch == epoch)
        ==> forall|j: int| 0 <= j < bucket.len() ==> bucket[k].entry.depth <= (#[trigger] bucket[j]).entry.depth
}

/// The slot of highest preference is one where the new entry may go.
pub proof fn lemma_chosen_slot_allowed(bucket: Seq<Slot>, tag: u32, epoch: u8, k: int)
    requires
        is_chosen_slot(bucket, tag, epoch, k),
    ensures
        replacement_allowed(bucket, tag, epoch, k),
{
    if exists|j: int| 0 <= j < bucket.len() && (#[trigger] bucket[j]).tag == tag {
        let j = choose|j: int| 0 <= j < bucket.len() && (#[trigger] bucket[j]).tag == tag;
        assert(slot_key(bucket[j], tag, epoch) <= slot_key(bucket[k], tag, epoch));
    }
    if no_match(bucket, tag) && exists|j: int| 0 <= j < bucket.len() && (#[trigger] bucket[j]).epoch != epoch {
        let j = choose|j: int| 0 <= j < bucket.len() && (#[trigger] bucket[j]).epoch != epoch;
        assert(slot_key(bucket[j], tag, epoch) <= slot_key(bucket[k], tag, epoch));
        assert(bucket[j].tag != tag && bucket[k].tag != tag);
    }
    if no_match(bucket, tag) && forall|j: int| 0 <= j < bucket.len() ==> (#[trigger] bucket[j]).epoch == epoch {
        assert forall|j: int| 0 <= j < bucket.len() implies bucket[k].entry.depth <= (#[trigger] bucket[j]).entry.depth by {
            assert(slot_key(bucket[j], tag, epoch) <= slot_key(bucket[k], tag, epoch));
            assert(bucket[j].tag != tag && bucket[k].tag != tag);
            assert(bucket[j].epoch == epoch && bucket[k].epoch == epoch);
        }
    }
}

/// Slot `k` is the first of `bucket` with `tag`.
pub open spec fn is_first_match(bucket: Seq<Slot>, tag: u32, k: int) -> bool {
    &&& 0 <= k < bucket.len()
    &&& bucket[k].tag == tag
    &&& forall|j: int| 0 <= j < k ==> (#[trigger] bucket[j]).tag != tag
}

/// No slot of `bucket` has `tag`.
pub open spec fn no_match(bucket: Seq<Slot>, tag: u32) -> bool {
    forall|j: int| 0 <= j < bucket.len() ==> (#[trigger] bucket[j]).tag != tag
}

/// Within each bucket, no two slots share a tag other than 0.
pub open spec fn tags_unique(slots: Seq<Slot>) -> bool {
    forall|a: int, b: int|
        0 <= a < b < slots.len() && a / 4 == b / 4 && (#[trigger] slots[a]).tag == (#[trigger] slots[b]).tag
            ==> slots[a].tag == 0
}

impl TTable {
    /// The slots, bucket after bucket.
    pub closed spec fn slots(self) -> Seq<Slot> {
        self.slots@
    }

    /// The number of buckets.
    pub closed spec fn num_buckets(self) -> nat {
        self.num_buckets as nat
    }

    /// The epoch of the current search.
    pub closed spec fn epoch(self) -> u8 {
        self.epoch
    }

    /// Four slots per bucket, a power of two of buckets, a nonzero epoch, and unique tags.
    pub open spec fn wf(self) -> bool {
        &&& is_power_of_two(self.num_buckets())
        &&& self.slots().len() == 4 * self.num_buckets()
        &&& self.epoch() != 0
        &&& tags_unique(self.slots())
    }

    /// A table taking about `size` bytes: the largest power of two of buckets that fits.
    pub fn new(size: usize) -> (r: TTable)
        requires
            size / TTABLE_BUCKET_BYTES > 0,
        ensures
            r.wf(),
            r.num_buckets() <= size / TTABLE_BUCKET_BYTES < 2 * r.num_buckets(),
            r.epoch() == 1,
            forall|i: int| 0 <= i < r.slots().len() ==> #[trigger] r.slots()[i] == empty_slot(),
    {
        let n = size / TTABLE_BUCKET_BYTES;
        let nb = largest_power_of_two(n);
        let mut slots: Vec<Slot> = Vec::new();
        let mut i: usize = 0;
        while i < 4 * nb
            invariant
                i <= 4 * nb,
                nb <= n,
                n == size / 64,
                slots@.len() == i,
                forall|k: int| 0 <= k < i ==> #[trigger] slots@[k] == empty_slot(),
            decreases 4 * nb - i,
        {
            slots.push(Slot { tag: 0, epoch: 0, entry: empty_entry() });
            i = i + 1;
        }
        let r = TTable { slots, num_buckets: nb, epoch: 1 };
        proof {
            assert forall|a: int, b: int|
                0 <= a < b < r.slots().len() && a / 4 == b / 4 && (#[trigger] r.slots()[a]).tag == (
                #[trigger] r.slots()[b]).tag implies r.slots()[a].tag == 0 by {
                assert(r.slots()[a] == empty_slot());
            }
        }
        r
    }

    /// Starts a new search: epochs run from 1 to 255, then start again at 1.
    pub fn new_epoch(&mut self)
        requires
            old(self).wf(),
        ensures
            final(self).wf(),
            final(self).slots() == old(self).slots(),
            final(self).num_buckets() == old(self).num_buckets(),
            final(self).epoch() == if old(self).epoch() == 255 { 1 } else { (old(self).epoch() + 1) as u8 },
    {
        self.epoch = if self.epoch == 255 {
            1
        } else {
            self.epoch + 1
        };
    }

    /// The entry stored for `hash`: that of the first slot of its bucket with its tag. The
    /// slot is marked as used in the current epoch.
    pub fn get(&mut self, hash: u64) -> (r: Option<TTableEntry>)
        requires
            old(self).wf(),
        ensures
            final(self).wf(),
            final(self).num_buckets() == old(self).num_buckets(),
            final(self).epoch() == old(self).epoch(),
            ({
                let b = bucket_of(hash, old(self).num_buckets());
                let bucket = bucket_slots(old(self).slots(), b);
                let tag = tag_of(hash);
                &&& r is None <==> no_match(bucket, tag)
                &&& r is None ==> final(self).slots() == old(self).slots()
                &&& r matches Some(e) ==> exists|k: int|
                    is_first_match(bucket, tag, k) && e == bucket[k].entry && final(self).slots()
                        == old(self).slots().update(
                        4 * b + k,
                        Slot { epoch: old(self).epoch(), ..bucket[k] },
                    )
            }),
    {
        let b = (hash % (self.num_buckets as u64)) as usize;
        let tag = (hash >> 32) as u32;
        proof {
            assert(tag == tag_of(hash)) by (bit_vector)
                requires
                    tag == (hash >> 32) as u32,
            ;
            lemma_bucket_in_range(hash, self.num_buckets as nat);
        }
        let ghost bucket = bucket_slots(self.slots@, b as int);
        let len = self.slots.len();
        let mut k: usize = 0;
        while k < 4
            invariant
                k <= 4,
                b < self.num_buckets,
                len == self.slots@.len(),
                self.slots@.len() == 4 * self.num_buckets,
                self.slots@ == old(self).slots@,
                self.num_buckets == old(self).num_buckets,
                self.epoch == old(self).epoch,
                old(self).wf(),
                b as int == bucket_of(hash, self.num_buckets as nat),
                tag == tag_of(hash),
                bucket == bucket_slots(self.slots@, b as int),
                forall|j: int| 0 <= j < k ==> (#[trigger] bucket[j]).tag != tag,
            decreases 4 - k,
        {
            let s = self.slots[4 * b + k];
            if s.tag == tag {
                let ghost old_slots = self.slots@;
                self.slots.set(4 * b + k, Slot { epoch: self.epoch, ..s });
                proof {
                    assert(bucket[k as int] == s);
                    assert(is_first_match(bucket, tag, k as int));
                    lemma_set_epoch_keeps_unique(old_slots, 4 * b + k, self.epoch);
                    assert(self.slots@ == old(self).slots().update(
                        4 * b + k,
                        Slot { epoch: old(self).epoch(), ..bucket[k as int] },
                    ));
                    assert(s.entry == bucket[k as int].entry);
                    assert(bucket_of(hash, old(self).num_buckets()) == b as int);
                    assert(tag_of(hash) == tag);
                    assert(bucket[k as int].tag == tag);
                    assert(!no_match(bucket, tag));
                }
                return Some(s.entry);
            }
            k = k + 1;
        }
        None
    }

    /// Stores `entry` for `hash` in the last slot of highest preference of its bucket:
    /// one with its tag, else one not used in the current epoch, else the one of least
    /// depth.
    pub fn set(&mut self, hash: u64, entry: TTableEntry)
        requires
            old(self).wf(),
        ensures
            final(self).wf(),
            final(self).num_buckets() == old(self).num_buckets(),
            final(self).epoch() == old(self).epoch(),
            ({
                let b = bucket_of(hash, old(self).num_buckets());
                let bucket = bucket_slots(old(self).slots(), b);
                exists|k: int|
                    is_chosen_slot(bucket, tag_of(hash), old(self).epoch(), k) && final(self).slots()
                        == old(self).slots().update(
                        4 * b + k,
                        Slot { tag: tag_of(hash), epoch: old(self).epoch(), entry },
                    )
            }),
            ({
                let b = bucket_of(hash, old(self).num_buckets());
                let bucket = bucket_slots(old(self).slots(), b);
                exists|k: int|
                    replacement_allowed(bucket, tag_of(hash), old(self).epoch(), k) && final(self).slots()
                        == old(self).slots().update(
                        4 * b + k,
                        Slot { tag: tag_of(hash), epoch: old(self).epoch(), entry },
                    )
            }),
    {
        let b = (hash % (self.num_buckets as u64)) as usize;
        let tag = (hash >> 32) as u32;
        proof {
            assert(tag == tag_of(hash)) by (bit_vector)
                requires
                    tag == (hash >> 32) as u32,
            ;
            lemma_bucket_in_range(hash, self.num_buckets as nat);
        }
        let ghost bucket = bucket_slots(self.slots@, b as int);
        let len = self.slots.len();
        let epoch = self.epoch;
        let mut best: usize = 0;
        let mut best_key: u32 = key(self.slots[4 * b], tag, epoch);
        let mut k: usize = 1;
        while k < 4
            invariant
                1 <= k <= 4,
                best < k,
                b < self.num_buckets,
                len == self.slots@.len(),
                self.slots@.len() == 4 * self.num_buckets,
                bucket == bucket_slots(self.slots@, b as int),
                epoch == self.epoch,
                self.slots@ == old(self).slots@,
                self.num_buckets == old(self).num_buckets,
                self.epoch == old(self).epoch,
                old(self).wf(),
                best_key == slot_key(bucket[best as int], tag, epoch),
                forall|j: int| 0 <= j < k ==> slot_key(#[trigger] bucket[j], tag, epoch) <= best_key,
                forall|j: int| best < j < k ==> slot_key(#[trigger] bucket[j], tag, epoch) < best_key,
            decreases 4 - k,
        {
            let kk = key(self.slots[4 * b + k], tag, epoch);
            proof {
                assert(self.slots@[4 * b + k] == bucket[k as int]);
            }
            if kk >= best_key {
                best = k;
                best_key = kk;
            }
            k = k + 1;
        }
        let ghost old_slots = self.slots@;
        self.slots.set(4 * b + best, Slot { tag, epoch, entry });
        proof {
            assert(is_chosen_slot(bucket, tag, epoch, best as int));
            lemma_chosen_slot_allowed(bucket, tag, epoch, best as int);
            lemma_set_keeps_unique(old_slots, b as int, best as int, tag, epoch, entry);
        }
    }
}

/// An unused slot's entry.
pub open spec fn empty_entry_spec() -> TTableEntry {
    TTableEntry { depth: 0, mov: None, score: TTableScore::NoScore }
}

/// An unused slot.
pub open spec fn empty_slot() -> Slot {
    Slot { tag: 0, epoch: 0, entry: empty_entry_spec() }
}

fn empty_entry() -> (r: TTableEntry)
    ensures
        r == empty_entry_spec(),
{
    TTableEntry { depth: 0, mov: None, score: TTableScore::NoScore }
}

fn key(s: Slot, tag: u32, epoch: u8) -> (r: u32)
    ensures
        r == slot_key(s, tag, epoch),
{
    let a: u32 = if s.tag == tag { 2 } else { 0 };
    let c: u32 = if s.epoch != epoch { 1 } else { 0 };
    a * 0x10000 + c * 0x10000 + (0xffff - s.entry.depth as u32)
}

/// The largest power of two not above `n`.
pub(crate) fn largest_power_of_two(n: usize) -> (r: usize)
    requires
        n > 0,
    ensures
        is_power_of_two(r as nat),
        r <= n < 2 * r,
{
    let mut p: usize = 1;
    while p <= n / 2
        invariant
            1 <= p <= n,
            is_power_of_two(p as nat),
        decreases n - p,
    {
        proof {
            assert((2 * p) as nat / 2 == p as nat);
        }
        p = p * 2;
    }
    p
}

pub(crate) proof fn lemma_bucket_in_range(hash: u64, n: nat)
    requires
        is_power_of_two(n),
        n <= usize::MAX,
    ensures
        0 <= bucket_of(hash, n) < n,
        bucket_of(hash, n) == (hash % (n as u64)) as int,
        n > 0,
    decreases n,
{
    if n != 1 && n > 0 {
        lemma_bucket_in_range(hash, n / 2);
    }
}

proof fn lemma_set_epoch_keeps_unique(slots: Seq<Slot>, i: int, epoch: u8)
    requires
        tags_unique(slots),
        0 <= i < slots.len(),
    ensures
        tags_unique(slots.update(i, Slot { epoch, ..slots[i] })),
{
    let s2 = slots.update(i, Slot { epoch, ..slots[i] });
    assert forall|a: int, b: int|
        0 <= a < b < s2.len() && a / 4 == b / 4 && (#[trigger] s2[a]).tag == (#[trigger] s2[b]).tag
            implies s2[a].tag == 0 by {
        assert(s2[a].tag == slots[a].tag);
        assert(s2[b].tag == slots[b].tag);
    }
}

proof fn lemma_set_keeps_unique(slots: Seq<Slot>, b: int, k: int, tag: u32, epoch: u8, entry: TTableEntry)
    requires
        tags_unique(slots),
        0 <= b,
        4 * b + 4 <= slots.len(),
        is_chosen_slot(bucket_slots(slots, b), tag, epoch, k),
    ensures
        tags_unique(slots.update(4 * b + k, Slot { tag, epoch, entry })),
{
    let bucket = bucket_slots(slots, b);
    let i = 4 * b + k;
    let s2 = slots.update(i, Slot { tag, epoch, entry });
    assert forall|x: int, y: int|
        0 <= x < y < s2.len() && x / 4 == y / 4 && (#[trigger] s2[x]).tag == (#[trigger] s2[y]).tag
            implies s2[x].tag == 0 by {
        if tag != 0 && (x == i || y == i) {
            let o = if x == i { y } else { x };
            assert(o / 4 == b);
            let j = o - 4 * b;
            assert(bucket[j] == slots[o]);
            assert(slots[o].tag == tag);
            // a slot with the tag has the highest preference, so it is the chosen one
            assert(slot_key(bucket[j], tag, epoch) >= 2 * 0x10000);
            if bucket[k].tag != tag {
                assert(slot_key(bucket[k], tag, epoch) < 2 * 0x10000);
            }
            assert(bucket[k].tag == tag);
            assert(false);
        }
    }
}

/// Reading a hash right after storing an entry for it gives the entry back, when the tag
/// of the hash is not 0 (the tag of unused slots).
pub proof fn lemma_read_after_write(t: TTable, hash: u64, entry: TTableEntry, k: int, slots: Seq<Slot>)
    requires
        t.wf(),
        tag_of(hash) != 0,
        is_chosen_slot(bucket_slots(t.slots(), bucket_of(hash, t.num_buckets())), tag_of(hash), t.epoch(), k),
        slots == t.slots().update(
            4 * bucket_of(hash, t.num_buckets()) + k,
            Slot { tag: tag_of(hash), epoch: t.epoch(), entry },
        ),
    ensures
        is_first_match(bucket_slots(slots, bucket_of(hash, t.num_buckets())), tag_of(hash), k),
        bucket_slots(slots, bucket_of(hash, t.num_buckets()))[k].entry == entry,
{
    let n = t.num_buckets();
    lemma_bucket_in_range(hash, n);
    let b = bucket_of(hash, n);
    let tag = tag_of(hash);
    let old_bucket = bucket_slots(t.slots(), b);
    let bucket = bucket_slots(slots, b);
    assert forall|j: int| 0 <= j < k implies (#[trigger] bucket[j]).tag != tag by {
        assert(bucket[j] == old_bucket[j]);
        if old_bucket[j].tag == tag {
            assert(slot_key(old_bucket[j], tag, t.epoch()) >= 2 * 0x10000);
            if old_bucket[k].tag != tag {
                assert(slot_key(old_bucket[k], tag, t.epoch()) < 2 * 0x10000);
            }
            assert(t.slots()[4 * b + j] == old_bucket[j]);
            assert(t.slots()[4 * b + k] == old_bucket[k]);
            assert((4 * b + j) / 4 == (4 * b + k) / 4);
        }
    }
}

} // verus!
