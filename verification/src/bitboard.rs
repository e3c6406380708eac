use crate::square::{group_square, lemma_square_index_injective, Square, NUM_SQUARES};
use vstd::prelude::*;
use vstd::std_specs::bits::{axiom_u64_trailing_zeros, u64_trailing_zeros};

verus! {

/// `v` lists the squares of `set` in increasing index order.
pub open spec fn is_sorted_listing(v: Seq<Square>, set: Set<Square>) -> bool {
    &&& forall|s: Square| v.contains(s) <==> set.contains(s)
    &&& forall|a: int, b: int| 0 <= a < b < v.len() ==> v[a].spec_index() < v[b].spec_index()
}

/// The squares of `set` in increasing index order.
pub open spec fn sorted_squares_of(set: Set<Square>) -> Seq<Square> {
    choose|v: Seq<Square>| is_sorted_listing(v, set)
}

/// A set has one listing in increasing order.
pub proof fn lemma_sorted_listing_unique(v1: Seq<Square>, v2: Seq<Square>, set: Set<Square>)
    requires
        is_sorted_listing(v1, set),
        is_sorted_listing(v2, set),
    ensures
        v1 == v2,
    decreases v1.len(),
{
    if v1.len() == 0 {
        if v2.len() > 0 {
            assert(v2.contains(v2[0]));
            assert(!v1.contains(v2[0]));
        }
        assert(v1 =~= v2);
    } else {
        assert(v1.contains(v1[0]));
        assert(set.contains(v1[0]));
        assert(v2.contains(v1[0]));
        let k = choose|k: int| 0 <= k < v2.len() && v2[k] == v1[0];
        assert(v2.contains(v2[0]));
        assert(v1.contains(v2[0]));
        let k1 = choose|k1: int| 0 <= k1 < v1.len() && v1[k1] == v2[0];
        if k > 0 {
            assert(v2[0].spec_index() < v1[0].spec_index());
            if k1 > 0 {
                assert(v1[0].spec_index() < v1[k1].spec_index());
            }
            assert(false);
        }
        assert(v2[0] == v1[0]);
        let t1 = v1.drop_first();
        let t2 = v2.drop_first();
        let rest = set.remove(v1[0]);
        assert forall|s: Square| t1.contains(s) <==> rest.contains(s) by {
            if t1.contains(s) {
                let i = choose|i: int| 0 <= i < t1.len() && t1[i] == s;
                assert(v1[i + 1] == s);
                assert(v1[0].spec_index() < s.spec_index());
            }
            if rest.contains(s) {
                assert(v1.contains(s));
                let i = choose|i: int| 0 <= i < v1.len() && v1[i] == s;
                assert(i != 0);
                assert(t1[i - 1] == s);
            }
        }
        assert forall|s: Square| t2.contains(s) <==> rest.contains(s) by {
            if t2.contains(s) {
                let i = choose|i: int| 0 <= i < t2.len() && t2[i] == s;
                assert(v2[i + 1] == s);
                assert(v2[0].spec_index() < s.spec_index());
            }
            if rest.contains(s) {
                assert(v2.contains(s));
                let i = choose|i: int| 0 <= i < v2.len() && v2[i] == s;
                assert(i != 0);
                assert(t2[i - 1] == s);
            }
        }
        lemma_sorted_listing_unique(t1, t2, rest);
        assert(v1 =~= seq![v1[0]] + t1);
        assert(v2 =~= seq![v2[0]] + t2);
    }
}

/// A listing in increasing order has at most 64 squares.
pub proof fn lemma_sorted_listing_len(v: Seq<Square>, set: Set<Square>)
    requires
        is_sorted_listing(v, set),
    ensures
        v.len() <= 64,
{
    broadcast use group_square;

    assert forall|i: int| 0 <= i < v.len() implies #[trigger] v[i].spec_index() >= i by {
        lemma_listing_index_at_least(v, set, i);
    }
    if v.len() > 64 {
        assert(v[64].spec_index() >= 64);
    }
}

proof fn lemma_listing_index_at_least(v: Seq<Square>, set: Set<Square>, i: int)
    requires
        is_sorted_listing(v, set),
        0 <= i < v.len(),
    ensures
        v[i].spec_index() >= i,
    decreases i,
{
    if i > 0 {
        lemma_listing_index_at_least(v, set, i - 1);
    }
}

/// The squares of `set` with index below `n`, in increasing order.
pub open spec fn listing_below(set: Set<Square>, n: nat) -> Seq<Square>
    decreases n,
{
    if n == 0 {
        Seq::empty()
    } else {
        let prev = listing_below(set, (n - 1) as nat);
        let sq = Square::spec_from_index(n - 1);
        if set.contains(sq) {
            prev.push(sq)
        } else {
            prev
        }
    }
}

proof fn lemma_listing_below(set: Set<Square>, n: nat)
    requires
        n <= 64,
    ensures
        forall|s: Square|
            #[trigger] listing_below(set, n).contains(s) <==> (s.spec_index() < n && set.contains(s)),
        forall|a: int|
            0 <= a < listing_below(set, n).len() ==> #[trigger] listing_below(set, n)[a].spec_index() < n,
        forall|a: int, b: int|
            0 <= a < b < listing_below(set, n).len() ==> listing_below(set, n)[a].spec_index()
                < listing_below(set, n)[b].spec_index(),
    decreases n,
{
    broadcast use group_square;

    if n > 0 {
        lemma_listing_below(set, (n - 1) as nat);
        let prev = listing_below(set, (n - 1) as nat);
        let sq = Square::spec_from_index(n - 1);
        assert(sq.spec_index() == n - 1);
        if set.contains(sq) {
            let v = prev.push(sq);
            assert forall|s: Square| v.contains(s) <==> (s.spec_index() < n && set.contains(s)) by {
                if s.spec_index() == n - 1 {
                    lemma_square_index_injective(s, sq);
                    assert(v[v.len() - 1] == sq);
                }
                if v.contains(s) && s != sq {
                    let k = choose|k: int| 0 <= k < v.len() && v[k] == s;
                    assert(prev[k] == s);
                }
                if prev.contains(s) {
                    let k = choose|k: int| 0 <= k < prev.len() && prev[k] == s;
                    assert(v[k] == s);
                }
            }
        } else {
            assert forall|s: Square| prev.contains(s) <==> (s.spec_index() < n && set.contains(s)) by {
                if s.spec_index() == n - 1 {
                    lemma_square_index_injective(s, sq);
                }
            }
        }
    }
}

/// Every set of squares has its listing in increasing order.
pub proof fn lemma_sorted_listing_exists(set: Set<Square>)
    ensures
        is_sorted_listing(sorted_squares_of(set), set),
{
    broadcast use group_square;

    lemma_listing_below(set, 64);
    assert(is_sorted_listing(listing_below(set, 64), set));
}

/// Adding a square to a set inserts it into the sorted listing, so the listing mapped
/// through any `f` gains `f` of the square and nothing else.
pub proof fn lemma_sorted_insert_multiset<B>(set: Set<Square>, x: Square, f: spec_fn(Square) -> B)
    requires
        !set.contains(x),
    ensures
        sorted_squares_of(set.insert(x)).map_values(f).to_multiset() == sorted_squares_of(
            set,
        ).map_values(f).to_multiset().insert(f(x)),
{
    broadcast use group_square;
    broadcast use vstd::seq_lib::group_to_multiset_ensures;

    lemma_sorted_listing_exists(set);
    lemma_sorted_listing_exists(set.insert(x));
    let v = sorted_squares_of(set);
    let k = first_above(v, x.spec_index(), 0);
    lemma_first_above(v, x.spec_index(), 0);
    let u = v.insert(k, x);
    assert forall|s: Square| u.contains(s) <==> set.insert(x).contains(s) by {
        if u.contains(s) {
            let i = choose|i: int| 0 <= i < u.len() && u[i] == s;
            if i < k {
                assert(v.contains(v[i]));
            } else if i > k {
                assert(u[i] == v[i - 1]);
                assert(v.contains(v[i - 1]));
            }
        }
        if set.contains(s) {
            assert(v.contains(s));
            let i = choose|i: int| 0 <= i < v.len() && v[i] == s;
            if i < k {
                assert(u[i] == s);
            } else {
                assert(u[i + 1] == s);
            }
        }
        if s == x {
            assert(u[k] == x);
        }
    }
    assert forall|a: int, b: int| 0 <= a < b < u.len() implies u[a].spec_index() < u[b].spec_index() by {
        if a < k && b > k {
            assert(u[b] == v[b - 1]);
        }
        if a > k {
            assert(u[a] == v[a - 1]);
            assert(u[b] == v[b - 1]);
        }
        if a == k && b > k {
            assert(u[b] == v[b - 1]);
            if x.spec_index() == v[b - 1].spec_index() {
                lemma_square_index_injective(x, v[b - 1]);
                assert(v.contains(v[b - 1]));
            }
        }
    }
    lemma_sorted_listing_unique(u, sorted_squares_of(set.insert(x)), set.insert(x));
    assert(u.map_values(f) =~= v.map_values(f).insert(k, f(x)));
    vstd::seq_lib::to_multiset_insert(v.map_values(f), k, f(x));
}

/// The first position from `i` on whose square's index is above `idx`, or the length.
pub open spec fn first_above(v: Seq<Square>, idx: nat, i: int) -> int
    decreases v.len() - i,
{
    if i >= v.len() {
        v.len() as int
    } else if v[i].spec_index() > idx {
        i
    } else {
        first_above(v, idx, i + 1)
    }
}

proof fn lemma_first_above(v: Seq<Square>, idx: nat, i: int)
    requires
        0 <= i <= v.len(),
        forall|a: int, b: int| 0 <= a < b < v.len() ==> v[a].spec_index() < v[b].spec_index(),
        forall|a: int| 0 <= a < i ==> #[trigger] v[a].spec_index() <= idx,
    ensures
        i <= first_above(v, idx, i) <= v.len(),
        forall|a: int| 0 <= a < first_above(v, idx, i) ==> #[trigger] v[a].spec_index() <= idx,
        forall|a: int| first_above(v, idx, i) <= a < v.len() ==> #[trigger] v[a].spec_index() > idx,
    decreases v.len() - i,
{
    if i < v.len() && v[i].spec_index() <= idx {
        lemma_first_above(v, idx, i + 1);
    }
}


broadcast use group_square;

/// Bit `i` of `x` is set.
pub open spec fn bit_at(x: u64, i: nat) -> bool {
    (x >> (i as u64)) & 1u64 == 1u64
}

/// Number of set bits of `x` below position `n`.
pub open spec fn popcount_below(x: u64, n: nat) -> nat
    decreases n,
{
    if n == 0 {
        0
    } else {
        popcount_below(x, (n - 1) as nat) + if bit_at(x, (n - 1) as nat) {
            1nat
        } else {
            0nat
        }
    }
}

pub proof fn lemma_bit_or(a: u64, b: u64, i: nat)
    requires
        i < 64,
    ensures
        bit_at(a | b, i) == (bit_at(a, i) || bit_at(b, i)),
{
    let j = i as u64;
    assert((((a | b) >> j) & 1u64 == 1u64) == (((a >> j) & 1u64 == 1u64) || ((b >> j) & 1u64
        == 1u64))) by (bit_vector)
        requires
            j < 64,
    ;
}

pub proof fn lemma_bit_and(a: u64, b: u64, i: nat)
    requires
        i < 64,
    ensures
        bit_at(a & b, i) == (bit_at(a, i) && bit_at(b, i)),
{
    let j = i as u64;
    assert((((a & b) >> j) & 1u64 == 1u64) == (((a >> j) & 1u64 == 1u64) && ((b >> j) & 1u64
        == 1u64))) by (bit_vector)
        requires
            j < 64,
    ;
}

pub proof fn lemma_bit_not(a: u64, i: nat)
    requires
        i < 64,
    ensures
        bit_at(!a, i) == !bit_at(a, i),
{
    let j = i as u64;
    assert((((!a) >> j) & 1u64 == 1u64) == !((a >> j) & 1u64 == 1u64)) by (bit_vector)
        requires
            j < 64,
    ;
}

pub proof fn lemma_bit_single(k: u64, i: nat)
    requires
        i < 64,
        k < 64,
    ensures
        bit_at(1u64 << k, i) == (i == k),
{
    let j = i as u64;
    assert((((1u64 << k) >> j) & 1u64 == 1u64) == (j == k)) by (bit_vector)
        requires
            j < 64,
            k < 64,
    ;
}

pub proof fn lemma_bit_zero(i: nat)
    requires
        i < 64,
    ensures
        !bit_at(0u64, i),
{
    let j = i as u64;
    assert(!(((0u64 >> j) & 1u64) == 1u64)) by (bit_vector);
}

/// Bits of `x` as the set of squares whose index bit is set.
pub open spec fn bits_to_set(x: u64) -> Set<Square> {
    Set::new(|s: Square| bit_at(x, s.spec_index()))
}

/// A set of squares, one bit per square index.
#[derive(Debug, Clone, Copy, PartialEq, Eq, Hash, Structural)]
pub struct Bitboard {
    pub bits: u64,
}

impl View for Bitboard {
    type V = Set<Square>;

    open spec fn view(&self) -> Set<Square> {
        bits_to_set(self.bits)
    }
}

impl Bitboard {
    /// Number of squares in the set.
    pub open spec fn spec_count(self) -> nat {
        popcount_below(self.bits, 64)
    }

    pub fn empty() -> (r: Bitboard)
        ensures
            r@ == Set::<Square>::empty(),
            r.bits == 0,
    {
        let r = Bitboard { bits: 0 };
        proof {
            assert forall|s: Square| !r@.contains(s) by {
                lemma_bit_zero(s.spec_index());
            }
            assert(r@ =~= Set::<Square>::empty());
        }
        r
    }

    pub fn all() -> (r: Bitboard)
        ensures
            r@ == Set::<Square>::full(),
            r.bits == 0xffff_ffff_ffff_ffffu64,
    {
        let r = Bitboard { bits: 0xffff_ffff_ffff_ffffu64 };
        proof {
            assert forall|s: Square| r@.contains(s) by {
                lemma_bit_not(0u64, s.spec_index());
                lemma_bit_zero(s.spec_index());
                assert(!0u64 == 0xffff_ffff_ffff_ffffu64) by (bit_vector);
            }
            assert(r@ =~= Set::<Square>::full());
        }
        r
    }

    pub fn from_bits(bits: u64) -> (r: Bitboard)
        ensures
            r.bits == bits,
    {
        Bitboard { bits }
    }

    pub fn bits(self) -> (r: u64)
        ensures
            r == self.bits,
    {
        self.bits
    }

    pub fn single(square: Square) -> (r: Bitboard)
        ensures
            r@ == set![square],
    {
        let k = square.index() as u64;
        let r = Bitboard { bits: 1u64 << k };
        proof {
            assert forall|s: Square| r@.contains(s) == (s == square) by {
                lemma_bit_single(k, s.spec_index());
                lemma_square_index_injective(s, square);
            }
            assert(r@ =~= set![square]);
        }
        r
    }

    pub fn contains(self, square: Square) -> (r: bool)
        ensures
            r == self@.contains(square),
    {
        let k = square.index() as u64;
        (self.bits >> k) & 1 == 1
    }

    pub fn is_empty(self) -> (r: bool)
        ensures
            r == (self@ == Set::<Square>::empty()),
            r == (self.bits == 0),
    {
        proof {
            if self.bits == 0 {
                assert forall|s: Square| !self@.contains(s) by {
                    lemma_bit_zero(s.spec_index());
                }
                assert(self@ =~= Set::<Square>::empty());
            } else {
                axiom_u64_trailing_zeros(self.bits);
                let t = u64_trailing_zeros(self.bits);
                let s = Square::spec_from_index(t as int);
                assert(self@.contains(s));
            }
        }
        self.bits == 0
    }

    pub fn union(self, other: Bitboard) -> (r: Bitboard)
        ensures
            r@ == self@.union(other@),
            r.bits == self.bits | other.bits,
    {
        let r = Bitboard { bits: self.bits | other.bits };
        proof {
            assert forall|s: Square| r@.contains(s) == self@.union(other@).contains(s) by {
                lemma_bit_or(self.bits, other.bits, s.spec_index());
            }
            assert(r@ =~= self@.union(other@));
        }
        r
    }

    pub fn intersection(self, other: Bitboard) -> (r: Bitboard)
        ensures
            r@ == self@.intersect(other@),
            r.bits == self.bits & other.bits,
    {
        let r = Bitboard { bits: self.bits & other.bits };
        proof {
            assert forall|s: Square| r@.contains(s) == self@.intersect(other@).contains(s) by {
                lemma_bit_and(self.bits, other.bits, s.spec_index());
            }
            assert(r@ =~= self@.intersect(other@));
        }
        r
    }

    pub fn complement(self) -> (r: Bitboard)
        ensures
            r@ == self@.complement(),
            r.bits == !self.bits,
    {
        let r = Bitboard { bits: !self.bits };
        proof {
            assert forall|s: Square| r@.contains(s) == self@.complement().contains(s) by {
                lemma_bit_not(self.bits, s.spec_index());
            }
            assert(r@ =~= self@.complement());
        }
        r
    }

    /// The squares of `self` that are not in `other`.
    pub fn difference(self, other: Bitboard) -> (r: Bitboard)
        ensures
            r@ == self@.difference(other@),
    {
        self.intersection(other.complement())
    }

    pub fn add(&mut self, square: Square)
        ensures
            final(self)@ == old(self)@.insert(square),
    {
        let single = Bitboard::single(square);
        *self = self.union(single);
        proof {
            assert(final(self)@ =~= old(self)@.insert(square));
        }
    }

    pub fn remove(&mut self, square: Square)
        ensures
            final(self)@ == old(self)@.remove(square),
    {
        let single = Bitboard::single(square);
        *self = self.difference(single);
        proof {
            assert(final(self)@ =~= old(self)@.remove(square));
        }
    }

    pub fn is_subset_of(self, other: Bitboard) -> (r: bool)
        ensures
            r == self@.subset_of(other@),
    {
        let d = self.difference(other);
        let r = d.is_empty();
        proof {
            if r {
                assert forall|s: Square| self@.contains(s) implies other@.contains(s) by {
                    assert(!d@.contains(s));
                }
            } else {
                if forall|s: Square| !d@.contains(s) {
                    assert(d@ =~= Set::<Square>::empty());
                }
                let s = choose|s: Square| d@.contains(s);
                assert(self@.contains(s) && !other@.contains(s));
            }
        }
        r
    }

    /// Number of squares in the set.
    pub fn count(self) -> (r: usize)
        ensures
            r == self.spec_count(),
            r <= 64,
    {
        let mut c: usize = 0;
        let mut i: u64 = 0;
        while i < 64
            invariant
                i <= 64,
                c == popcount_below(self.bits, i as nat),
                c <= i,
            decreases 64 - i,
        {
            if (self.bits >> i) & 1 == 1 {
                c += 1;
            }
            i += 1;
        }
        c
    }

    /// The squares of the set in increasing index order.
    pub fn squares(self) -> (r: Vec<Square>)
        ensures
            forall|s: Square| r@.contains(s) <==> self@.contains(s),
            forall|a: int, b: int|
                0 <= a < b < r@.len() ==> r@[a].spec_index() < r@[b].spec_index(),
            r@ == sorted_squares_of(self@),
    {
        let mut v: Vec<Square> = Vec::new();
        let mut i: usize = 0;
        while i < NUM_SQUARES
            invariant
                i <= 64,
                forall|s: Square| v@.contains(s) <==> (s.spec_index() < i && self@.contains(s)),
                forall|a: int| 0 <= a < v@.len() ==> v@[a].spec_index() < i,
                forall|a: int, b: int|
                    0 <= a < b < v@.len() ==> v@[a].spec_index() < v@[b].spec_index(),
            decreases 64 - i,
        {
            let sq = Square::from_index(i);
            if self.contains(sq) {
                let ghost old_v = v@;
                v.push(sq);
                proof {
                    assert forall|s: Square|
                        v@.contains(s) <==> (s.spec_index() < i + 1 && self@.contains(s)) by {
                        if s.spec_index() == i {
                            lemma_square_index_injective(s, sq);
                            assert(v@[v@.len() - 1] == sq);
                        }
                        if v@.contains(s) && s != sq {
                            let k = choose|k: int| 0 <= k < v@.len() && v@[k] == s;
                            assert(old_v[k] == s);
                        }
                        if old_v.contains(s) {
                            let k = choose|k: int| 0 <= k < old_v.len() && old_v[k] == s;
                            assert(v@[k] == s);
                        }
                    }
                }
            } else {
                proof {
                    assert forall|s: Square|
                        v@.contains(s) <==> (s.spec_index() < i + 1 && self@.contains(s)) by {
                        if s.spec_index() == i {
                            lemma_square_index_injective(s, sq);
                        }
                    }
                }
            }
            i += 1;
        }
        proof {
            assert(is_sorted_listing(v@, self@));
            lemma_sorted_listing_unique(v@, sorted_squares_of(self@), self@);
        }
        v
    }

    /// The square with the smallest index in the set.
    pub fn first(self) -> (r: Option<Square>)
        ensures
            r is None <==> self@ == Set::<Square>::empty(),
            r matches Some(s) ==> self@.contains(s) && forall|t: Square|
                self@.contains(t) ==> s.spec_index() <= t.spec_index(),
    {
        if self.is_empty() {
            return None;
        }
        let t = self.bits.trailing_zeros();
        proof {
            axiom_u64_trailing_zeros(self.bits);
            assert forall|u: Square| self@.contains(u) implies t <= u.spec_index() by {
                if u.spec_index() < t {
                    let j = u.spec_index() as u64;
                    assert((self.bits >> j) & 1u64 == 0u64);
                }
            }
        }
        Some(Square::from_index(t as usize))
    }
}

} // verus!
