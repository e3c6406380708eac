use vstd::arithmetic::power2::{
    lemma2_to64, lemma2_to64_rest, lemma_pow2_adds, lemma_pow2_pos, lemma_pow2_strictly_increases,
    lemma_pow2_unfold, pow2,
};
use vstd::bits::{lemma_u64_pow2_no_overflow, lemma_u64_shl_is_mul};
use vstd::prelude::*;

verus! {

/// `2^n`.
pub open spec fn p2(n: nat) -> nat {
    pow2(n)
}

/// The `n` low bits of `v`, least significant first.
pub open spec fn bits_of(n: nat, v: nat) -> Seq<bool>
    decreases n,
{
    if n == 0 {
        Seq::empty()
    } else {
        seq![v % 2 == 1] + bits_of((n - 1) as nat, v / 2)
    }
}

/// The number whose bits, least significant first, are `b`.
pub open spec fn value_of(b: Seq<bool>) -> nat
    decreases b.len(),
{
    if b.len() == 0 {
        0
    } else {
        (if b[0] {
            1nat
        } else {
            0nat
        }) + 2 * value_of(b.drop_first())
    }
}

/// `n` zero bits.
pub open spec fn zeros(n: nat) -> Seq<bool> {
    Seq::new(n, |i: int| false)
}

pub proof fn lemma_p2_pos(n: nat)
    ensures
        p2(n) >= 1,
{
    lemma_pow2_pos(n);
}

pub proof fn lemma_p2_unfold(n: nat)
    requires
        n > 0,
    ensures
        p2(n) == 2 * p2((n - 1) as nat),
{
    lemma_pow2_unfold(n);
}

pub proof fn lemma_p2_add(a: nat, b: nat)
    ensures
        p2(a + b) == p2(a) * p2(b),
{
    lemma_pow2_adds(a, b);
}

pub proof fn lemma_p2_mono(a: nat, b: nat)
    requires
        a <= b,
    ensures
        p2(a) <= p2(b),
{
    if a < b {
        lemma_pow2_strictly_increases(a, b);
    }
}

/// Some powers of two.
pub proof fn lemma_p2_values()
    ensures
        p2(0) == 1,
        p2(1) == 2,
        p2(2) == 4,
        p2(3) == 8,
        p2(4) == 16,
        p2(5) == 32,
        p2(6) == 64,
        p2(7) == 128,
        p2(14) == 16384,
        p2(32) == 0x1_0000_0000,
        p2(39) == 0x80_0000_0000,
{
    lemma2_to64();
    lemma2_to64_rest();
}

pub proof fn lemma_bits_len(n: nat, v: nat)
    ensures
        #[trigger] bits_of(n, v).len() == n,
    decreases n,
{
    if n > 0 {
        lemma_bits_len((n - 1) as nat, v / 2);
    }
}

/// The bits of `x` below `a`, then those of `y`, are the bits of `x + 2^a * y`.
pub proof fn lemma_bits_concat(a: nat, b: nat, x: nat, y: nat)
    requires
        x < p2(a),
    ensures
        bits_of(a, x) + bits_of(b, y) == bits_of(a + b, x + p2(a) * y),
    decreases a,
{
    if a == 0 {
        lemma_p2_values();
        assert(x == 0);
        assert(p2(a) * y == y) by (nonlinear_arith)
            requires
                p2(a) == 1,
        ;
        assert(bits_of(0, x) + bits_of(b, y) =~= bits_of(b, y));
    } else {
        lemma_p2_unfold(a);
        let m = p2((a - 1) as nat) * y;
        assert(p2(a) * y == 2 * m) by (nonlinear_arith)
            requires
                p2(a) == 2 * p2((a - 1) as nat),
                m == p2((a - 1) as nat) * y,
        ;
        assert(x / 2 < p2((a - 1) as nat));
        lemma_bits_concat((a - 1) as nat, b, x / 2, y);
        let v = x + 2 * m;
        assert(v % 2 == x % 2);
        assert(v / 2 == x / 2 + m);
        assert(bits_of(a + b, v) == seq![v % 2 == 1] + bits_of((a + b - 1) as nat, v / 2));
        assert(bits_of(a, x) + bits_of(b, y) =~= seq![x % 2 == 1] + (bits_of((a - 1) as nat, x / 2)
            + bits_of(b, y)));
    }
}

/// The bits of `v` below `a + b` split at `a`.
pub proof fn lemma_bits_split(a: nat, b: nat, v: nat)
    ensures
        bits_of(a + b, v) == bits_of(a, v % p2(a)) + bits_of(b, v / p2(a)),
{
    lemma_p2_pos(a);
    let x = v % p2(a);
    let y = v / p2(a);
    assert(v == x + p2(a) * y) by (nonlinear_arith)
        requires
            p2(a) >= 1,
            x == v % p2(a),
            y == v / p2(a),
    ;
    lemma_bits_concat(a, b, x, y);
}

/// Reading back `n` bits of `v` gives `v` modulo `2^n`.
pub proof fn lemma_value_bits(n: nat, v: nat)
    ensures
        value_of(bits_of(n, v)) == v % p2(n),
    decreases n,
{
    lemma_bits_len(n, v);
    if n == 0 {
        lemma_p2_values();
    } else {
        lemma_value_bits((n - 1) as nat, v / 2);
        let s = bits_of(n, v);
        assert(s.drop_first() =~= bits_of((n - 1) as nat, v / 2));
        lemma_p2_pos((n - 1) as nat);
        lemma_p2_unfold(n);
        vstd::arithmetic::div_mod::lemma_mod_breakdown(v as int, 2, p2((n - 1) as nat) as int);
    }
}

/// The value of `b` is below `2^len`.
pub proof fn lemma_value_bound(b: Seq<bool>)
    ensures
        value_of(b) < p2(b.len()),
    decreases b.len(),
{
    if b.len() > 0 {
        lemma_value_bound(b.drop_first());
        lemma_p2_unfold(b.len());
    } else {
        lemma_p2_values();
    }
}

/// Writing the value of `b` in `len` bits gives `b` back.
pub proof fn lemma_bits_value(b: Seq<bool>)
    ensures
        bits_of(b.len(), value_of(b)) == b,
    decreases b.len(),
{
    if b.len() > 0 {
        let r = b.drop_first();
        lemma_bits_value(r);
        let v = value_of(b);
        let t: nat = if b[0] {
            1
        } else {
            0
        };
        assert(v % 2 == t);
        assert(v / 2 == value_of(r));
        assert(bits_of(b.len(), v) =~= seq![b[0]] + r);
        assert(seq![b[0]] + r =~= b);
    }
}

/// The bits of 0 are zeros.
pub proof fn lemma_bits_zero(n: nat)
    ensures
        bits_of(n, 0) == zeros(n),
    decreases n,
{
    if n > 0 {
        lemma_bits_zero((n - 1) as nat);
        assert(bits_of(n, 0) =~= zeros(n));
    }
}

/// `2^k` for an exponent below 64.
pub fn pow2_u64(k: u32) -> (r: u64)
    requires
        k < 64,
    ensures
        r == p2(k as nat),
{
    proof {
        lemma_u64_pow2_no_overflow(k as nat);
        lemma_u64_shl_is_mul(1, k as u64);
    }
    1u64 << k
}

} // verus!
