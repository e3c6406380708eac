use crate::color::Color;
use crate::moves::{SetupMove, SETUP_MOVE_SIZE};
use crate::piece::Piece;
use vstd::prelude::*;
use vstd::seq_lib::{group_to_multiset_ensures, lemma_multiset_commutative};

verus! {

/// The order of piece kinds: Alfil < Dabbaba < Ferz < Knight < Wazir.
pub open spec fn rank(p: Piece) -> int {
    p.spec_index() as int
}

/// `a` and `b` hold the same pieces below index `k`.
pub open spec fn agree_below(a: Seq<Piece>, b: Seq<Piece>, k: int) -> bool {
    forall|t: int| 0 <= t < k ==> a[t] == b[t]
}

/// `a` comes strictly before `b` in lexicographic order (both of one length).
pub open spec fn lex_less(a: Seq<Piece>, b: Seq<Piece>) -> bool {
    exists|k: int|
        0 <= k < a.len() && k < b.len() && agree_below(a, b, k) && #[trigger] rank(a[k]) < rank(
            b[k],
        )
}

/// From index `from` on, no piece is ranked above the one before it.
pub open spec fn non_increasing_from(s: Seq<Piece>, from: int) -> bool {
    forall|a: int, b: int| from <= a < b < s.len() ==> rank(#[trigger] s[b]) <= rank(#[trigger] s[a])
}

/// From index `from` on, no piece is ranked below the one before it.
pub open spec fn non_decreasing_from(s: Seq<Piece>, from: int) -> bool {
    forall|a: int, b: int| from <= a < b < s.len() ==> rank(#[trigger] s[a]) <= rank(#[trigger] s[b])
}

/// The first setup in enumeration order: the starting pieces sorted by kind.
pub open spec fn first_setup_pieces() -> Seq<Piece> {
    Seq::new(
        16,
        |i: int|
            if i < 8 {
                Piece::Alfil
            } else if i < 12 {
                Piece::Dabbaba
            } else if i < 14 {
                Piece::Ferz
            } else if i < 15 {
                Piece::Knight
            } else {
                Piece::Wazir
            },
    )
}

/// The setup that follows `prev` in lexicographic order among the arrangements of the
/// same pieces: it holds the same pieces, comes after `prev`, and no arrangement of those
/// pieces comes between the two.
pub open spec fn is_next_arrangement(prev: Seq<Piece>, next: Seq<Piece>) -> bool {
    &&& next.len() == prev.len()
    &&& next.to_multiset() == prev.to_multiset()
    &&& lex_less(prev, next)
    &&& forall|q: Seq<Piece>|
        q.len() == prev.len() && q.to_multiset() == prev.to_multiset() && #[trigger] lex_less(prev, q)
            ==> !lex_less(q, next)
}

/// Two arrangements of the same pieces that agree below `k`: the piece of `b` at `k` is
/// somewhere in `a` at or after `k`.
proof fn lemma_same_pieces_suffix(a: Seq<Piece>, b: Seq<Piece>, k: int) -> (t: int)
    requires
        a.len() == b.len(),
        a.to_multiset() == b.to_multiset(),
        agree_below(a, b, k),
        0 <= k < a.len(),
    ensures
        k <= t < a.len(),
        a[t] == b[k],
{
    broadcast use group_to_multiset_ensures;
    broadcast use vstd::multiset::group_multiset_axioms;

    let n = a.len() as int;
    let ta = a.subrange(0, k);
    let sa = a.subrange(k, n);
    let sb = b.subrange(k, n);
    assert(a =~= ta + sa);
    assert(b =~= ta + sb);
    lemma_multiset_commutative(ta, sa);
    lemma_multiset_commutative(ta, sb);
    assert(sa.to_multiset() =~= sb.to_multiset()) by {
        assert forall|x: Piece| sa.to_multiset().count(x) == sb.to_multiset().count(x) by {
            assert(a.to_multiset().count(x) == ta.to_multiset().count(x) + sa.to_multiset().count(x));
            assert(b.to_multiset().count(x) == ta.to_multiset().count(x) + sb.to_multiset().count(x));
        }
    }
    assert(sb[0] == b[k]);
    assert(sb.contains(b[k]));
    assert(sa.to_multiset().count(b[k]) > 0);
    assert(sa.contains(b[k]));
    let u = choose|u: int| 0 <= u < sa.len() && sa[u] == b[k];
    k + u
}

/// No arrangement of the pieces of `p` lies strictly between `p` and `m`, when `m` keeps
/// `p` below the pivot `i`, puts there the smallest larger piece of `p`'s non-increasing
/// tail, and sorts the rest upwards.
proof fn lemma_nothing_between(p: Seq<Piece>, m: Seq<Piece>, i: int)
    requires
        p.len() == 16,
        m.len() == 16,
        0 <= i < 16,
        m.to_multiset() == p.to_multiset(),
        agree_below(p, m, i),
        non_increasing_from(p, i + 1),
        non_decreasing_from(m, i + 1),
        rank(p[i]) < rank(m[i]),
        forall|t: int| i < t < 16 && rank(p[i]) < rank(#[trigger] p[t]) ==> rank(m[i]) <= rank(p[t]),
    ensures
        forall|q: Seq<Piece>|
            q.len() == p.len() && q.to_multiset() == p.to_multiset() && #[trigger] lex_less(p, q)
                ==> !lex_less(q, m),
{
    assert forall|q: Seq<Piece>|
        q.len() == p.len() && q.to_multiset() == p.to_multiset() && #[trigger] lex_less(
            p,
            q,
        ) implies !lex_less(q, m) by {
        let k = choose|k: int|
            0 <= k < p.len() && k < q.len() && agree_below(p, q, k) && #[trigger] rank(p[k]) < rank(
                q[k],
            );
        if lex_less(q, m) {
            let k2 = choose|k2: int|
                0 <= k2 < q.len() && k2 < m.len() && agree_below(q, m, k2) && #[trigger] rank(q[k2])
                    < rank(m[k2]);
            if k < i {
                if k2 < k {
                    assert(q[k2] == p[k2]);
                    assert(m[k2] == p[k2]);
                } else if k2 > k {
                    assert(q[k] == m[k]);
                    assert(m[k] == p[k]);
                } else {
                    assert(m[k] == p[k]);
                }
            } else if k > i {
                let t = lemma_same_pieces_suffix(p, q, k);
                if t > k {
                    assert(rank(p[t]) <= rank(p[k]));
                }
            } else {
                let t = lemma_same_pieces_suffix(p, q, i);
                assert(t != i);
                assert(rank(p[i]) < rank(p[t]));
                assert(rank(m[i]) <= rank(q[i]));
                if k2 < i {
                    assert(q[k2] == p[k2]);
                    assert(m[k2] == p[k2]);
                } else if k2 > i {
                    assert(q[i] == m[i]);
                    let t2 = lemma_same_pieces_suffix(m, q, k2);
                    if t2 > k2 {
                        assert(rank(m[k2]) <= rank(m[t2]));
                    }
                }
            }
        }
    }
}

/// The swap of the pivot `i` with the last larger piece `j`, followed by the reversal of
/// the tail, gives the next arrangement.
proof fn lemma_next_arrangement(p: Seq<Piece>, i: int, j: int, s: Seq<Piece>, m: Seq<Piece>)
    requires
        p.len() == 16,
        0 <= i < j <= 15,
        non_increasing_from(p, i + 1),
        rank(p[i]) < rank(p[i + 1]),
        rank(p[i]) < rank(p[j]),
        j == 15 || rank(p[j + 1]) <= rank(p[i]),
        s == p.update(i, p[j]).update(j, p[i]),
        m.len() == 16,
        forall|t: int| 0 <= t <= i ==> m[t] == s[t],
        forall|t: int| i < t < 16 ==> m[t] == s[16 + i - t],
    ensures
        is_next_arrangement(p, m),
{
    broadcast use group_to_multiset_ensures;
    broadcast use vstd::multiset::group_multiset_axioms;

    // the same pieces
    let p1 = p.update(i, p[j]);
    assert(p1.to_multiset() == p.to_multiset().insert(p[j]).remove(p[i]));
    assert(s.to_multiset() == p1.to_multiset().insert(p[i]).remove(p1[j]));
    assert(s.to_multiset() =~= p.to_multiset());
    let head = s.subrange(0, i + 1);
    let tail = s.subrange(i + 1, 16);
    assert(s =~= head + tail);
    assert(m =~= head + tail.reverse());
    lemma_multiset_commutative(head, tail);
    lemma_multiset_commutative(head, tail.reverse());
    tail.lemma_reverse_to_multiset();
    assert(m.to_multiset() =~= p.to_multiset());
    // the tail of s is non-increasing, so that of m is non-decreasing
    assert forall|t: int| i < t <= j implies rank(p[j]) <= rank(#[trigger] p[t]) by {
        if t < j {
            assert(rank(p[j]) <= rank(p[t]));
        }
    }
    assert(non_increasing_from(s, i + 1)) by {
        assert forall|a: int, b: int| i + 1 <= a < b < s.len() implies rank(#[trigger] s[b]) <= rank(
            #[trigger] s[a],
        ) by {
            if b == j {
                assert(rank(p[i]) < rank(p[a]));
            } else if a == j {
                assert(rank(p[b]) <= rank(p[j + 1]));
            }
        }
    }
    assert(non_decreasing_from(m, i + 1)) by {
        assert forall|a: int, b: int| i + 1 <= a < b < m.len() implies rank(#[trigger] m[a]) <= rank(
            #[trigger] m[b],
        ) by {
            assert(m[a] == s[16 + i - a]);
            assert(m[b] == s[16 + i - b]);
        }
    }
    // the smallest larger piece of the tail goes to the pivot
    assert forall|t: int| i < t < 16 && rank(p[i]) < rank(#[trigger] p[t]) implies rank(m[i]) <= rank(
        p[t],
    ) by {
        if t > j {
            assert(rank(p[t]) <= rank(p[j + 1]));
        }
    }
    assert(agree_below(p, m, i));
    assert(rank(p[i]) < rank(m[i]));
    assert(lex_less(p, m));
    lemma_nothing_between(p, m, i);
}

/// Enumerates the setup moves of one color: every arrangement of the starting pieces once,
/// in lexicographic order of the pieces.
pub struct SetupMoveIterator {
    color: Color,
    mov: Option<SetupMove>,
}

/// The iterator over the setup moves of `color`, before its first step.
pub fn setup_moves(color: Color) -> (r: SetupMoveIterator)
    ensures
        r.color() == color,
        r.last() is None,
{
    SetupMoveIterator { color, mov: None }
}

impl SetupMoveIterator {
    /// The color whose setups are enumerated.
    pub closed spec fn color(self) -> Color {
        self.color
    }

    /// The setup returned last, `None` before the first step.
    pub closed spec fn last(self) -> Option<SetupMove> {
        self.mov
    }

    /// The next setup move: first the sorted starting pieces, then each next arrangement;
    /// `None` once the last arrangement (non-increasing order) has been returned.
    pub fn next(&mut self) -> (r: Option<SetupMove>)
        ensures
            final(self).color() == old(self).color(),
            match old(self).last() {
                None => r matches Some(m) && m.color == old(self).color() && m.pieces@
                    == first_setup_pieces(),
                Some(prev) => {
                    &&& r is None <==> non_increasing_from(prev.pieces@, 0)
                    &&& r matches Some(m) ==> m.color == prev.color && is_next_arrangement(
                        prev.pieces@,
                        m.pieces@,
                    )
                },
            },
            r is Some ==> final(self).last() == r,
            r is None ==> final(self).last() == old(self).last(),
    {
        match self.mov {
            None => {
                let pieces: [Piece; 16] = [
                    Piece::Alfil,
                    Piece::Alfil,
                    Piece::Alfil,
                    Piece::Alfil,
                    Piece::Alfil,
                    Piece::Alfil,
                    Piece::Alfil,
                    Piece::Alfil,
                    Piece::Dabbaba,
                    Piece::Dabbaba,
                    Piece::Dabbaba,
                    Piece::Dabbaba,
                    Piece::Ferz,
                    Piece::Ferz,
                    Piece::Knight,
                    Piece::Wazir,
                ];
                assert(pieces@ =~= first_setup_pieces());
                let m = SetupMove { color: self.color, pieces };
                self.mov = Some(m);
                Some(m)
            },
            Some(prev) => {
                match next_arrangement(prev.pieces) {
                    None => None,
                    Some(pieces) => {
                        let m = SetupMove { color: prev.color, pieces };
                        self.mov = Some(m);
                        Some(m)
                    },
                }
            },
        }
    }
}

/// The next arrangement of the pieces in lexicographic order, `None` when `p` is the last
/// one.
fn next_arrangement(p: [Piece; 16]) -> (r: Option<[Piece; 16]>)
    ensures
        r is None <==> non_increasing_from(p@, 0),
        r matches Some(m) ==> is_next_arrangement(p@, m@),
{
    let mut i: usize = 15;
    while i > 0 && p[i - 1].index() >= p[i].index()
        invariant
            i <= 15,
            non_increasing_from(p@, i as int),
        decreases i,
    {
        i = i - 1;
    }
    if i == 0 {
        return None;
    }
    let i = i - 1;
    // p[i] < p[i + 1] >= p[i + 2] >= ...
    let mut j: usize = i + 1;
    while j != 15 && p[i].index() < p[j + 1].index()
        invariant
            i + 1 <= j <= 15,
            rank(p@[i as int]) < rank(p@[j as int]),
        decreases 15 - j,
    {
        j = j + 1;
    }
    let mut q = p;
    let a = q[i];
    let b = q[j];
    q[i] = b;
    q[j] = a;
    let ghost s = q@;
    let mut lo: usize = i + 1;
    let mut hi: usize = 15;
    while lo < hi
        invariant
            i + 1 <= lo,
            hi <= 15,
            lo + hi == 16 + i,
            q@.len() == 16,
            forall|t: int| 0 <= t < lo ==> t <= i ==> q@[t] == s[t],
            forall|t: int| i < t < lo ==> q@[t] == s[16 + i - t],
            forall|t: int| hi < t < 16 ==> q@[t] == s[16 + i - t],
            forall|t: int| lo <= t <= hi ==> q@[t] == s[t],
        decreases 16 - lo,
    {
        let x = q[lo];
        let y = q[hi];
        q[lo] = y;
        q[hi] = x;
        lo = lo + 1;
        hi = hi - 1;
    }
    proof {
        assert forall|t: int| i < t < 16 implies q@[t] == s[16 + i - t] by {
            if lo <= t <= hi {
                assert(t == 16 + i - t);
            }
        }
        lemma_next_arrangement(p@, i as int, j as int, s, q@);
    }
    Some(q)
}

/// The first arrangement holds the starting pieces.
pub proof fn lemma_first_setup_valid()
    ensures
        crate::moves::spec_valid_pieces(first_setup_pieces()),
{
    let f = first_setup_pieces();
    assert forall|p: Piece| #[trigger] crate::moves::count_in(f, p, 16) == crate::piece::spec_initial_count(p) by {
        reveal_with_fuel(crate::moves::count_in, 17);
        assert(f[0] == Piece::Alfil && f[7] == Piece::Alfil && f[8] == Piece::Dabbaba);
        assert(f[1] == Piece::Alfil && f[2] == Piece::Alfil && f[3] == Piece::Alfil);
        assert(f[4] == Piece::Alfil && f[5] == Piece::Alfil && f[6] == Piece::Alfil);
        assert(f[9] == Piece::Dabbaba && f[10] == Piece::Dabbaba && f[11] == Piece::Dabbaba);
        assert(f[12] == Piece::Ferz && f[13] == Piece::Ferz && f[14] == Piece::Knight && f[15] == Piece::Wazir);
    }
}

} // verus!
