use crate::moves::RegularMove;
use crate::ttable::{
    bucket_of, bucket_slots, is_power_of_two, largest_power_of_two, lemma_bucket_in_range, tag_of,
};
use crate::variation::{ExtendableVariation, LongVariation, Variation};
use vstd::prelude::*;

verus! {

/// Memory accounted to one bucket: four tags with their epochs and four variations.
pub const PVTABLE_BUCKET_BYTES: usize = 1728;

/// The tag of a slot (the high half of a hash) and the epoch of the search that last used it.
#[derive(Debug, Copy, Clone, PartialEq, Eq, Structural)]
pub struct PvEntry {
    pub tag: u32,
    pub epoch: u8,
}

/// A table of principal variations by position hash: buckets of four slots, picked by the
/// low bits of the hash; the high half is the tag kept in a slot.
pub struct PVTable {
    entries: Vec<PvEntry>,
    variations: Vec<LongVariation>,
    num_buckets: usize,
    epoch: u8,
}

/// Preference of a slot when storing a variation with `tag` in epoch `epoch`: a slot with
/// the same tag first, then one not used in this epoch.
pub open spec fn pv_key(e: PvEntry, tag: u32, epoch: u8) -> int {
    (if e.tag == tag { 2int } else { 0int }) + (if e.epoch != epoch { 1int } else { 0int })
}

/// Slot `k` is where a variation with `tag` is stored: the last slot of highest preference.
pub open spec fn pv_is_chosen_slot(bucket: Seq<PvEntry>, tag: u32, epoch: u8, k: int) -> bool {
    &&& 0 <= k < bucket.len()
    &&& forall|j: int| 0 <= j < bucket.len() ==> pv_key(#[trigger] bucket[j], tag, epoch) <= pv_key(bucket[k], tag, epoch)
    &&& forall|j: int| k < j < bucket.len() ==> pv_key(#[trigger] bucket[j], tag, epoch) < pv_key(bucket[k], tag, epoch)
}

/// Slot `k` is the first of `bucket` with `tag`.
pub open spec fn pv_is_first_match(bucket: Seq<PvEntry>, tag: u32, k: int) -> bool {
    &&& 0 <= k < bucket.len()
    &&& bucket[k].tag == tag
    &&& forall|j: int| 0 <= j < k ==> (#[trigger] bucket[j]).tag != tag
}

/// No slot of `bucket` has `tag`.
pub open spec fn pv_no_match(bucket: Seq<PvEntry>, tag: u32) -> bool {
    forall|j: int| 0 <= j < bucket.len() ==> (#[trigger] bucket[j]).tag != tag
}

/// What `PVTable::get` does: from `t` to `t2`, reading `hash` gives `r`.
pub open spec fn spec_pv_get(t: PVTable, t2: PVTable, hash: u64, r: Option<LongVariation>) -> bool {
    let b = bucket_of(hash, t.num_buckets());
    let bucket = bucket_slots(t.entries(), b);
    let tag = tag_of(hash);
    &&& t2.wf()
    &&& t2.num_buckets() == t.num_buckets()
    &&& t2.epoch() == t.epoch()
    &&& t2.moves() == t.moves()
    &&& t2.truncated() == t.truncated()
    &&& r is None <==> pv_no_match(bucket, tag)
    &&& r is None ==> t2.entries() == t.entries()
    &&& r matches Some(v) ==> exists|k: int|
        pv_is_first_match(bucket, tag, k) && v.moves@ == t.moves()[4 * b + k] && v.truncated
            == t.truncated()[4 * b + k] && v.wf() && t2.entries() == t.entries().update(
            4 * b + k,
            PvEntry { tag, epoch: t.epoch() },
        )
}

/// What `PVTable::set` does: from `t` to `t2`, storing `variation` for `hash`.
pub open spec fn spec_pv_set(t: PVTable, t2: PVTable, hash: u64, variation: LongVariation) -> bool {
    let b = bucket_of(hash, t.num_buckets());
    let bucket = bucket_slots(t.entries(), b);
    &&& t2.wf()
    &&& t2.num_buckets() == t.num_buckets()
    &&& t2.epoch() == t.epoch()
    &&& exists|k: int|
        pv_is_chosen_slot(bucket, tag_of(hash), t.epoch(), k) && t2.entries() == t.entries().update(
            4 * b + k,
            PvEntry { tag: tag_of(hash), epoch: t.epoch() },
        ) && t2.moves() == t.moves().update(4 * b + k, variation.moves@) && t2.truncated()
            == t.truncated().update(4 * b + k, variation.truncated)
}

/// Within each bucket, no two slots share a tag other than 0.
pub open spec fn pv_tags_unique(entries: Seq<PvEntry>) -> bool {
    forall|a: int, b: int|
        0 <= a < b < entries.len() && a / 4 == b / 4 && (#[trigger] entries[a]).tag == (
        #[trigger] entries[b]).tag ==> entries[a].tag == 0
}

impl PVTable {
    /// The tags and epochs of the slots, bucket after bucket.
    pub closed spec fn entries(self) -> Seq<PvEntry> {
        self.entries@
    }

    /// The moves of the variation of each slot.
    pub closed spec fn moves(self) -> Seq<Seq<RegularMove>> {
        self.variations@.map_values(|v: LongVariation| v.moves@)
    }

    /// Whether the variation of each slot was cut short.
    pub closed spec fn truncated(self) -> Seq<bool> {
        self.variations@.map_values(|v: LongVariation| v.truncated)
    }

    /// The number of buckets.
    pub closed spec fn num_buckets(self) -> nat {
        self.num_buckets as nat
    }

    /// The epoch of the current search.
    pub closed spec fn epoch(self) -> u8 {
        self.epoch
    }

    /// Four slots per bucket, a power of two of buckets, a nonzero epoch, unique tags, and
    /// variations of at most `MAX_VARIATION_LENGTH` moves.
    pub closed spec fn wf(self) -> bool {
        &&& is_power_of_two(self.num_buckets())
        &&& self.entries@.len() == 4 * self.num_buckets()
        &&& self.variations@.len() == 4 * self.num_buckets()
        &&& self.epoch != 0
        &&& pv_tags_unique(self.entries@)
        &&& forall|i: int| 0 <= i < self.variations@.len() ==> (#[trigger] self.variations@[i]).wf()
    }

    pub proof fn lemma_wf(self)
        requires
            self.wf(),
        ensures
            is_power_of_two(self.num_buckets()),
            self.entries().len() == 4 * self.num_buckets(),
            self.moves().len() == 4 * self.num_buckets(),
            self.truncated().len() == 4 * self.num_buckets(),
            self.epoch() != 0,
            pv_tags_unique(self.entries()),
    {
    }

    /// A table taking about `size` bytes: the largest power of two of buckets that fits.
    pub fn new(size: usize) -> (r: PVTable)
        requires
            size / PVTABLE_BUCKET_BYTES > 0,
        ensures
            r.wf(),
            r.num_buckets() <= size / PVTABLE_BUCKET_BYTES < 2 * r.num_buckets(),
            r.epoch() == 1,
            forall|i: int| 0 <= i < r.entries().len() ==> #[trigger] r.entries()[i] == (PvEntry { tag: 0, epoch: 0 }),
            forall|i: int| 0 <= i < r.moves().len() ==> #[trigger] r.moves()[i] == Seq::<RegularMove>::empty(),
            forall|i: int| 0 <= i < r.truncated().len() ==> !#[trigger] r.truncated()[i],
    {
        let n = size / PVTABLE_BUCKET_BYTES;
        let nb = largest_power_of_two(n);
        let mut entries: Vec<PvEntry> = Vec::new();
        let mut variations: Vec<LongVariation> = Vec::new();
        let mut i: usize = 0;
        while i < 4 * nb
            invariant
                i <= 4 * nb,
                nb <= n,
                n == size / 1728,
                entries@.len() == i,
                variations@.len() == i,
                forall|k: int| 0 <= k < i ==> #[trigger] entries@[k] == (PvEntry { tag: 0, epoch: 0 }),
                forall|k: int|
                    0 <= k < i ==> (#[trigger] variations@[k]).moves@ == Seq::<RegularMove>::empty()
                        && !variations@[k].truncated && variations@[k].wf(),
            decreases 4 * nb - i,
        {
            entries.push(PvEntry { tag: 0, epoch: 0 });
            variations.push(LongVariation::empty());
            i = i + 1;
        }
        let r = PVTable { entries, variations, num_buckets: nb, epoch: 1 };
        proof {
            assert forall|a: int, b: int|
                0 <= a < b < r.entries@.len() && a / 4 == b / 4 && (#[trigger] r.entries@[a]).tag == (
                #[trigger] r.entries@[b]).tag implies r.entries@[a].tag == 0 by {
                assert(r.entries@[a] == PvEntry { tag: 0, epoch: 0 });
            }
        }
        r
    }

    /// Starts a new search: epochs run from 1 to 255, then start again at 1.
    pub fn new_epoch(&mut self)
        requires
            old(self).wf(),
        ensures
            final(self).wf(),
            final(self).entries() == old(self).entries(),
            final(self).moves() == old(self).moves(),
            final(self).truncated() == old(self).truncated(),
            final(self).num_buckets() == old(self).num_buckets(),
            final(self).epoch() == if old(self).epoch() == 255 { 1 } else { (old(self).epoch() + 1) as u8 },
    {
        self.epoch = if self.epoch == 255 {
            1
        } else {
            self.epoch + 1
        };
    }

    /// The variation stored for `hash`: that of the first slot of its bucket with its tag.
    /// The slot is marked as used in the current epoch.
    pub fn get(&mut self, hash: u64) -> (r: Option<LongVariation>)
        requires
            old(self).wf(),
        ensures
            final(self).wf(),
            final(self).num_buckets() == old(self).num_buckets(),
            final(self).epoch() == old(self).epoch(),
            final(self).moves() == old(self).moves(),
            final(self).truncated() == old(self).truncated(),
            ({
                let b = bucket_of(hash, old(self).num_buckets());
                let bucket = bucket_slots(old(self).entries(), b);
                let tag = tag_of(hash);
                &&& r is None <==> pv_no_match(bucket, tag)
                &&& r is None ==> final(self).entries() == old(self).entries()
                &&& r matches Some(v) ==> exists|k: int|
                    pv_is_first_match(bucket, tag, k) && v.moves@ == old(self).moves()[4 * b + k]
                        && v.truncated == old(self).truncated()[4 * b + k] && v.wf() && final(self).entries()
                        == old(self).entries().update(4 * b + k, PvEntry { tag, epoch: old(self).epoch() })
            }),
    {
        let b = (hash % (self.num_buckets as u64)) as usize;
        let tag = (hash >> 32) as u32;
        proof {
            assert(tag == tag_of(hash)) by (bit_vector)
                requires
                    tag == (hash >> 32) as u32,
            ;
            lemma_bucket_in_range(hash, self.num_buckets as nat);
        }
        let ghost bucket = bucket_slots(self.entries@, b as int);
        let len = self.entries.len();
        let mut k: usize = 0;
        while k < 4
            invariant
                k <= 4,
                b < self.num_buckets,
                len == self.entries@.len(),
                self.entries@.len() == 4 * self.num_buckets,
                self.entries@ == old(self).entries@,
                self.variations@ == old(self).variations@,
                self.num_buckets == old(self).num_buckets,
                self.epoch == old(self).epoch,
                old(self).wf(),
                b as int == bucket_of(hash, self.num_buckets as nat),
                tag == tag_of(hash),
                bucket == bucket_slots(self.entries@, b as int),
                forall|j: int| 0 <= j < k ==> (#[trigger] bucket[j]).tag != tag,
            decreases 4 - k,
        {
            let i = 4 * b + k;
            let e = self.entries[i];
            if e.tag == tag {
                let ghost old_entries = self.entries@;
                self.entries.set(i, PvEntry { tag, epoch: self.epoch });
                let v = self.variations[i].clone();
                proof {
                    assert(bucket[k as int] == e);
                    assert(pv_is_first_match(bucket, tag, k as int));
                    assert(!pv_no_match(bucket, tag));
                    assert(self.entries@ == old_entries.update(i as int, PvEntry { tag, epoch: self.epoch }));
                    assert forall|x: int, y: int|
                        0 <= x < y < self.entries@.len() && x / 4 == y / 4 && (#[trigger] self.entries@[x]).tag
                            == (#[trigger] self.entries@[y]).tag implies self.entries@[x].tag == 0 by {
                        assert(self.entries@[x].tag == old_entries[x].tag);
                        assert(self.entries@[y].tag == old_entries[y].tag);
                    }
                    assert(old(self).moves()[i as int] == old(self).variations@[i as int].moves@);
                    assert(old(self).truncated()[i as int] == old(self).variations@[i as int].truncated);
                    assert(self.moves() =~= old(self).moves());
                    assert(self.truncated() =~= old(self).truncated());
                    assert(old(self).variations@[i as int].wf());
                    assert(v.wf());
                    let bb = bucket_of(hash, old(self).num_buckets());
                    assert(bb == b as int);
                    assert(bucket_slots(old(self).entries(), bb) == bucket);
                    assert(pv_is_first_match(bucket_slots(old(self).entries(), bb), tag_of(hash), k as int)
                        && v.moves@ == old(self).moves()[4 * bb + k] && v.truncated == old(
                        self,
                    ).truncated()[4 * bb + k] && v.wf() && self.entries() =~= old(self).entries().update(
                        4 * bb + k,
                        PvEntry { tag: tag_of(hash), epoch: old(self).epoch() },
                    ));
                }
                return Some(v);
            }
            k = k + 1;
        }
        proof {
            assert(self.moves() =~= old(self).moves());
            assert(self.truncated() =~= old(self).truncated());
        }
        None
    }

    /// Stores `variation` for `hash` in the last slot of highest preference of its bucket:
    /// one with its tag, else one not used in the current epoch.
    pub fn set(&mut self, hash: u64, variation: LongVariation)
        requires
            old(self).wf(),
            variation.wf(),
        ensures
            final(self).wf(),
            final(self).num_buckets() == old(self).num_buckets(),
            final(self).epoch() == old(self).epoch(),
            ({
                let b = bucket_of(hash, old(self).num_buckets());
                let bucket = bucket_slots(old(self).entries(), b);
                exists|k: int|
                    pv_is_chosen_slot(bucket, tag_of(hash), old(self).epoch(), k) && final(self).entries()
                        == old(self).entries().update(4 * b + k, PvEntry { tag: tag_of(hash), epoch: old(self).epoch() })
                        && final(self).moves() == old(self).moves().update(4 * b + k, variation.moves@)
                        && final(self).truncated() == old(self).truncated().update(4 * b + k, variation.truncated)
            }),
    {
        let b = (hash % (self.num_buckets as u64)) as usize;
        let tag = (hash >> 32) as u32;
        proof {
            assert(tag == tag_of(hash)) by (bit_vector)
                requires
                    tag == (hash >> 32) as u32,
            ;
            lemma_bucket_in_range(hash, self.num_buckets as nat);
        }
        let ghost bucket = bucket_slots(self.entries@, b as int);
        let len = self.entries.len();
        let epoch = self.epoch;
        let mut best: usize = 0;
        let first = self.entries[4 * b];
        let mut best_key: u8 = pv_key_exec(first, tag, epoch);
        let mut k: usize = 1;
        while k < 4
            invariant
                1 <= k <= 4,
                best < k,
                b < self.num_buckets,
                len == self.entries@.len(),
                self.entries@.len() == 4 * self.num_buckets,
                bucket == bucket_slots(self.entries@, b as int),
                b as int == bucket_of(hash, self.num_buckets as nat),
                tag == tag_of(hash),
                self.entries@ == old(self).entries@,
                self.variations@ == old(self).variations@,
                self.num_buckets == old(self).num_buckets,
                old(self).wf(),
                epoch == self.epoch,
                best_key == pv_key(bucket[best as int], tag, epoch),
                forall|j: int| 0 <= j < k ==> pv_key(#[trigger] bucket[j], tag, epoch) <= best_key,
                forall|j: int| best < j < k ==> pv_key(#[trigger] bucket[j], tag, epoch) < best_key,
            decreases 4 - k,
        {
            let e = self.entries[4 * b + k];
            let kk = pv_key_exec(e, tag, epoch);
            proof {
                assert(self.entries@[4 * b + k] == bucket[k as int]);
            }
            if kk >= best_key {
                best = k;
                best_key = kk;
            }
            k = k + 1;
        }
        let i = 4 * b + best;
        let ghost old_entries = self.entries@;
        let ghost old_vars = self.variations@;
        self.entries.set(i, PvEntry { tag, epoch });
        let ghost moves = variation.moves@;
        let ghost truncated = variation.truncated;
        self.variations.set(i, variation);
        proof {
            assert(pv_is_chosen_slot(bucket, tag, epoch, best as int));
            assert forall|x: int, y: int|
                0 <= x < y < self.entries@.len() && x / 4 == y / 4 && (#[trigger] self.entries@[x]).tag == (
                #[trigger] self.entries@[y]).tag implies self.entries@[x].tag == 0 by {
                if tag != 0 && (x == i || y == i) {
                    let o = if x == i { y } else { x };
                    let j = o - 4 * b;
                    assert(bucket[j] == old_entries[o]);
                    assert(pv_key(bucket[j], tag, epoch) >= 2);
                    assert(bucket[best as int].tag == tag);
                    assert(false);
                }
            }
            assert(self.moves() =~= old(self).moves().update(i as int, moves));
            assert(self.truncated() =~= old(self).truncated().update(i as int, truncated));
            let bb = bucket_of(hash, old(self).num_buckets());
            assert(bb == b as int);
            assert(bucket_slots(old(self).entries(), bb) == bucket);
            assert(pv_is_chosen_slot(bucket_slots(old(self).entries(), bb), tag_of(hash), old(self).epoch(), best as int)
                && self.entries() =~= old(self).entries().update(
                4 * bb + best,
                PvEntry { tag: tag_of(hash), epoch: old(self).epoch() },
            ) && self.moves() =~= old(self).moves().update(4 * bb + best, moves) && self.truncated()
                =~= old(self).truncated().update(4 * bb + best, truncated));
            assert forall|q: int| 0 <= q < self.variations@.len() implies (#[trigger] self.variations@[q]).wf() by {
                if q != i {
                    assert(self.variations@[q] == old_vars[q]);
                }
            }
        }
    }
}

fn pv_key_exec(e: PvEntry, tag: u32, epoch: u8) -> (r: u8)
    ensures
        r == pv_key(e, tag, epoch),
{
    let a: u8 = if e.tag == tag { 2 } else { 0 };
    let c: u8 = if e.epoch != epoch { 1 } else { 0 };
    a + c
}

/// Reading a hash right after storing a variation for it finds the slot just written,
/// when the tag of the hash is not 0 (the tag of unused slots).
pub proof fn lemma_read_after_write(t: PVTable, hash: u64, k: int, entries: Seq<PvEntry>)
    requires
        t.wf(),
        tag_of(hash) != 0,
        pv_is_chosen_slot(bucket_slots(t.entries(), bucket_of(hash, t.num_buckets())), tag_of(hash), t.epoch(), k),
        entries == t.entries().update(
            4 * bucket_of(hash, t.num_buckets()) + k,
            PvEntry { tag: tag_of(hash), epoch: t.epoch() },
        ),
    ensures
        pv_is_first_match(bucket_slots(entries, bucket_of(hash, t.num_buckets())), tag_of(hash), k),
{
    t.lemma_wf();
    let n = t.num_buckets();
    lemma_bucket_in_range(hash, n);
    let b = bucket_of(hash, n);
    let tag = tag_of(hash);
    let old_bucket = bucket_slots(t.entries(), b);
    let bucket = bucket_slots(entries, b);
    assert forall|j: int| 0 <= j < k implies (#[trigger] bucket[j]).tag != tag by {
        assert(bucket[j] == old_bucket[j]);
        if old_bucket[j].tag == tag {
            assert(pv_key(old_bucket[j], tag, t.epoch()) >= 2);
            assert(old_bucket[k].tag == tag);
            assert(t.entries()[4 * b + j] == old_bucket[j]);
            assert(t.entries()[4 * b + k] == old_bucket[k]);
            assert((4 * b + j) / 4 == (4 * b + k) / 4);
        }
    }
}

} // verus!
