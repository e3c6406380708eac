use crate::bits::{
    bits_of, lemma_bits_concat, lemma_bits_len, lemma_bits_split, lemma_bits_value, lemma_p2_add,
    lemma_p2_mono, lemma_p2_pos, lemma_p2_values, lemma_value_bits, lemma_value_bound, p2, pow2_u64,
    value_of, zeros,
};
use vstd::prelude::*;

verus! {

/// Bits of the first part of a varint, after the sign bit.
pub const VARINT_BASE_BITS: u32 = 5;

/// Bits of each further part of a varint, after its continuation bit.
pub const VARINT_EXTENSION_BITS: u32 = 2;

/// The 7-bit value that a two-byte character with high part `i` stands for before its low
/// 7 bits. Such a character takes the place of two 7-bit groups, the first of which is
/// one of these values, which as characters of their own would be control codes or a
/// quotation mark.
pub open spec fn special_value(i: int) -> Option<u8> {
    if i == 2 {
        Some(0u8)
    } else if i == 3 {
        Some(8u8)
    } else if i == 4 {
        Some(9u8)
    } else if i == 5 {
        Some(10u8)
    } else if i == 6 {
        Some(11u8)
    } else if i == 7 {
        Some(12u8)
    } else if i == 8 {
        Some(13u8)
    } else if i == 9 {
        Some(27u8)
    } else if i == 10 {
        Some(34u8)
    } else {
        None
    }
}

/// The high part that stands for a 7-bit value, if it is one of the special ones.
pub open spec fn special_index(a: u8) -> Option<u32> {
    if a == 0 {
        Some(2u32)
    } else if a == 8 {
        Some(3u32)
    } else if a == 9 {
        Some(4u32)
    } else if a == 10 {
        Some(5u32)
    } else if a == 11 {
        Some(6u32)
    } else if a == 12 {
        Some(7u32)
    } else if a == 13 {
        Some(8u32)
    } else if a == 27 {
        Some(9u32)
    } else if a == 34 {
        Some(10u32)
    } else {
        None
    }
}

/// The character is one of the format.
fn char_in_format(c: char) -> (r: bool)
    ensures
        r == (char_groups(c) is Some),
{
    let code = c as u32;
    assert(code as int == c as int);
    if code < 128 {
        true
    } else if code / 128 >= 16 {
        false
    } else {
        special_map((code / 128) as usize).is_some()
    }
}

/// The special value of high part `i`, if any (the table of the format).
pub fn special_map(i: usize) -> (r: Option<u8>)
    ensures
        r == special_value(i as int),
{
    match i {
        2 => Some(0),
        3 => Some(8),
        4 => Some(9),
        5 => Some(10),
        6 => Some(11),
        7 => Some(12),
        8 => Some(13),
        9 => Some(27),
        10 => Some(34),
        _ => None,
    }
}

fn ascii_to_special(ascii: u8) -> (r: Option<u32>)
    ensures
        r == special_index(ascii),
{
    match ascii {
        0 => Some(2),
        8 => Some(3),
        9 => Some(4),
        10 => Some(5),
        11 => Some(6),
        12 => Some(7),
        13 => Some(8),
        27 => Some(9),
        34 => Some(10),
        _ => None,
    }
}

/// Calls `char::from_u32`: a code below 0xD800 is a Unicode scalar value, so the call
/// gives the character of that code.
#[verifier::external_body]
fn char_of_code(code: u32) -> (r: char)
    requires
        code < 0xD800,
    ensures
        r == code as char,
{
    char::from_u32(code).unwrap_or_default()
}

/// Calls `String::from_iter` on characters: the string of those characters, in order.
#[verifier::external_body]
fn string_of_chars(chars: Vec<char>) -> (r: String)
    ensures
        r@ == chars@,
{
    String::from_iter(chars)
}

/// The characters of the string, in order.
fn chars_of_str(s: &str) -> (r: Vec<char>)
    ensures
        r@ == s@,
{
    broadcast use vstd::string::axiom_spec_iter;

    let mut r: Vec<char> = Vec::new();
    for c in it: s.chars()
        invariant
            it.seq() == s@,
            r@ == it.seq().take(it.index() as int),
    {
        r.push(c);
    }
    r
}

/// One step of the output: a 7-bit group is written as a character of its own, or, when it
/// is special, held back to form a two-byte character with the next group.
pub open spec fn enc_step(state: (Seq<char>, Option<u32>), g: u8) -> (Seq<char>, Option<u32>) {
    match state.1 {
        None => match special_index(g) {
            None => (state.0.push(g as char), None),
            Some(i) => (state.0, Some(i)),
        },
        Some(i) => (state.0.push(((i * 128 + g) as u32) as char), None),
    }
}

/// The characters written for 7-bit groups, and the special group held back, if any.
pub open spec fn enc_state(gs: Seq<u8>) -> (Seq<char>, Option<u32>)
    decreases gs.len(),
{
    if gs.len() == 0 {
        (Seq::empty(), None)
    } else {
        enc_step(enc_state(gs.drop_last()), gs.last())
    }
}

/// The bits of 7-bit groups, in order.
pub open spec fn groups_stream(gs: Seq<u8>) -> Seq<bool>
    decreases gs.len(),
{
    if gs.len() == 0 {
        Seq::empty()
    } else {
        groups_stream(gs.drop_last()) + bits_of(7, gs.last() as nat)
    }
}

/// Every group has 7 bits.
pub open spec fn are_groups(gs: Seq<u8>) -> bool {
    forall|i: int| 0 <= i < gs.len() ==> #[trigger] gs[i] < 128
}

/// The 7-bit groups of a stream whose length is a multiple of 7.
pub open spec fn groups_of(bs: Seq<bool>) -> Seq<u8> {
    Seq::new(bs.len() / 7, |k: int| value_of(bs.subrange(7 * k, 7 * k + 7)) as u8)
}

/// The stream after the end marker: a 1 bit, then zeros up to a multiple of 7.
pub open spec fn finish_bits(bs: Seq<bool>) -> Seq<bool> {
    let b1 = bs.push(true);
    b1 + zeros(((7 - b1.len() % 7) % 7) as nat)
}

/// The text of a stream of bits: its groups after the end marker, with a zero group added
/// when the last one is special and would be left alone.
pub open spec fn spec_encode(bs: Seq<bool>) -> Seq<char> {
    let gs = groups_of(finish_bits(bs));
    if enc_state(gs).1 is None {
        enc_state(gs).0
    } else {
        enc_state(gs.push(0u8)).0
    }
}

/// The groups a character stands for, `None` for a character that is not in the format.
pub open spec fn char_groups(c: char) -> Option<Seq<u8>> {
    let code = c as int;
    if code < 128 {
        Some(seq![code as u8])
    } else if code / 128 < 16 && special_value(code / 128) is Some {
        Some(seq![special_value(code / 128)->0, (code % 128) as u8])
    } else {
        None
    }
}

/// The groups of a text, `None` if a character is not in the format.
pub open spec fn chars_groups(cs: Seq<char>) -> Option<Seq<u8>>
    decreases cs.len(),
{
    if cs.len() == 0 {
        Some(Seq::empty())
    } else {
        match (chars_groups(cs.drop_last()), char_groups(cs.last())) {
            (Some(a), Some(b)) => Some(a + b),
            _ => None,
        }
    }
}

proof fn lemma_groups_stream_push(gs: Seq<u8>, g: u8)
    ensures
        groups_stream(gs.push(g)) == groups_stream(gs) + bits_of(7, g as nat),
{
    assert(gs.push(g).drop_last() =~= gs);
}

proof fn lemma_groups_stream_concat(a: Seq<u8>, b: Seq<u8>)
    ensures
        groups_stream(a + b) == groups_stream(a) + groups_stream(b),
    decreases b.len(),
{
    if b.len() == 0 {
        assert(a + b =~= a);
        assert(groups_stream(a) + groups_stream(b) =~= groups_stream(a));
    } else {
        lemma_groups_stream_concat(a, b.drop_last());
        assert((a + b).drop_last() =~= a + b.drop_last());
        assert(groups_stream(a + b) =~= groups_stream(a) + groups_stream(b));
    }
}

proof fn lemma_groups_stream_len(gs: Seq<u8>)
    ensures
        groups_stream(gs).len() == 7 * gs.len(),
    decreases gs.len(),
{
    if gs.len() > 0 {
        lemma_groups_stream_len(gs.drop_last());
        lemma_bits_len(7, gs.last() as nat);
    }
}

proof fn lemma_chars_groups_concat(a: Seq<char>, b: Seq<char>)
    requires
        chars_groups(a) is Some,
        chars_groups(b) is Some,
    ensures
        chars_groups(a + b) == Some(chars_groups(a)->0 + chars_groups(b)->0),
    decreases b.len(),
{
    if b.len() == 0 {
        assert(a + b =~= a);
        assert(chars_groups(a)->0 + chars_groups(b)->0 =~= chars_groups(a)->0);
    } else {
        lemma_chars_groups_concat(a, b.drop_last());
        assert((a + b).drop_last() =~= a + b.drop_last());
        assert((a + b).last() == b.last());
        assert(chars_groups(a)->0 + (chars_groups(b.drop_last())->0 + char_groups(b.last())->0)
            =~= chars_groups(a)->0 + chars_groups(b.drop_last())->0 + char_groups(b.last())->0);
    }
}

proof fn lemma_chars_groups_prefix(cs: Seq<char>, k: int)
    requires
        chars_groups(cs) is Some,
        0 <= k <= cs.len(),
    ensures
        chars_groups(cs.subrange(0, k)) is Some,
        chars_groups(cs.subrange(k, cs.len() as int)) is Some,
    decreases cs.len(),
{
    if cs.len() > 0 && k < cs.len() {
        lemma_chars_groups_prefix(cs.drop_last(), k);
        assert(cs.drop_last().subrange(0, k) =~= cs.subrange(0, k));
        let tail = cs.subrange(k, cs.len() as int);
        assert(tail.drop_last() =~= cs.drop_last().subrange(k, cs.len() - 1));
        assert(tail.last() == cs.last());
    } else if k == cs.len() {
        assert(cs.subrange(0, k) =~= cs);
        assert(cs.subrange(k, cs.len() as int) =~= Seq::<char>::empty());
    }
}

/// Decoding the characters written for groups gives the groups back, with the held-back
/// special group, if any, in front of what is still to come.
proof fn lemma_decode_enc_state(gs: Seq<u8>)
    requires
        are_groups(gs),
    ensures
        chars_groups(enc_state(gs).0) is Some,
        match enc_state(gs).1 {
            None => chars_groups(enc_state(gs).0)->0 == gs,
            Some(i) => 2 <= i <= 10 && special_value(i as int) is Some && chars_groups(enc_state(gs).0)->0.push(
                special_value(i as int)->0,
            ) == gs,
        },
    decreases gs.len(),
{
    if gs.len() > 0 {
        let prev = gs.drop_last();
        let g = gs.last();
        assert(are_groups(prev));
        lemma_decode_enc_state(prev);
        let (cs, p) = enc_state(prev);
        assert(g < 128);
        match p {
            None => {
                match special_index(g) {
                    None => {
                        let c = g as char;
                        assert((c as int) == g as int);
                        assert(cs.push(c).drop_last() =~= cs);
                        assert(chars_groups(cs)->0 + seq![g] =~= gs);
                    },
                    Some(i) => {
                        assert(prev.push(g) =~= gs);
                    },
                }
            },
            Some(i) => {
                let code = (i * 128 + g) as u32;
                let c = code as char;
                assert((c as int) == code as int);
                assert(code as int / 128 == i);
                assert(code as int % 128 == g);
                assert(cs.push(c).drop_last() =~= cs);
                assert(chars_groups(cs)->0.push(special_value(i as int)->0) == prev);
                assert(gs =~= prev.push(g));
                assert(char_groups(c) == Some(seq![special_value(i as int)->0, g]));
                assert(chars_groups(cs.push(c)) == Some(chars_groups(cs)->0 + seq![special_value(i as int)->0, g]));
                assert(chars_groups(cs)->0 + seq![special_value(i as int)->0, g] =~= gs);
            },
        }
    }
}

/// The groups of the bits of groups are those groups.
proof fn lemma_groups_of_stream(gs: Seq<u8>)
    requires
        are_groups(gs),
    ensures
        groups_of(groups_stream(gs)) == gs,
    decreases gs.len(),
{
    lemma_groups_stream_len(gs);
    if gs.len() == 0 {
        assert(groups_of(groups_stream(gs)) =~= gs);
    } else {
        let prev = gs.drop_last();
        let g = gs.last();
        assert(are_groups(prev));
        lemma_groups_of_stream(prev);
        lemma_groups_stream_len(prev);
        lemma_bits_len(7, g as nat);
        let s = groups_stream(gs);
        let sp = groups_stream(prev);
        assert(s == sp + bits_of(7, g as nat));
        assert forall|k: int| 0 <= k < gs.len() implies #[trigger] groups_of(s)[k] == gs[k] by {
            if k < prev.len() {
                assert(s.subrange(7 * k, 7 * k + 7) =~= sp.subrange(7 * k, 7 * k + 7));
                assert(groups_of(sp)[k] == prev[k]);
            } else {
                assert(s.subrange(7 * k, 7 * k + 7) =~= bits_of(7, g as nat));
                lemma_value_bits(7, g as nat);
                lemma_p2_values();
            }
        }
        assert(groups_of(s) =~= gs);
    }
}

/// The sign bit and the magnitude of a varint: `-n - 1` for negative `n`.
pub open spec fn varint_parts(n: int) -> (nat, nat) {
    if n < 0 {
        (1, (-(n + 1)) as nat)
    } else {
        (0, n as nat)
    }
}

/// The further parts of a varint, each a 1 bit then `e` bits, then a 0 bit.
pub open spec fn ext_bits(e: nat, v: nat) -> Seq<bool>
    decreases v,
{
    if v == 0 || e == 0 {
        seq![false]
    } else {
        proof {
            lemma_p2_mono(1, e);
            lemma_p2_values();
            assert(v / p2(e) < v) by (nonlinear_arith)
                requires
                    p2(e) >= 2,
                    v > 0,
            ;
        }
        seq![true] + bits_of(e, v % p2(e)) + ext_bits(e, v / p2(e))
    }
}

/// The bits of a varint: the sign bit, the `base` low bits of the magnitude, then the
/// rest of the magnitude in parts of `ext` bits.
pub open spec fn varint_bits(base: nat, ext: nat, n: int) -> Seq<bool> {
    let (sign, v) = varint_parts(n);
    bits_of(1, sign) + bits_of(base, v % p2(base)) + ext_bits(ext, v / p2(base))
}

/// The stream starts with the varint of `n`.
pub open spec fn starts_with_varint(s: Seq<bool>, base: nat, ext: nat, n: int) -> bool {
    varint_bits(base, ext, n).len() <= s.len() && s.take(varint_bits(base, ext, n).len() as int)
        == varint_bits(base, ext, n)
}

proof fn lemma_ext_bits_unique(e: nat, w1: nat, w2: nat, t: Seq<bool>)
    requires
        e >= 1,
        ext_bits(e, w1).len() <= t.len(),
        t.take(ext_bits(e, w1).len() as int) == ext_bits(e, w1),
        ext_bits(e, w2).len() <= t.len(),
        t.take(ext_bits(e, w2).len() as int) == ext_bits(e, w2),
    ensures
        w1 == w2,
    decreases w1,
{
    lemma_p2_mono(1, e);
    lemma_p2_values();
    assert(ext_bits(e, w1)[0] == t[0]);
    assert(ext_bits(e, w2)[0] == t[0]);
    if w1 != 0 && w2 != 0 {
        let a1 = w1 % p2(e);
        let a2 = w2 % p2(e);
        lemma_bits_len(e, a1);
        lemma_bits_len(e, a2);
        assert(t.subrange(1, 1 + e as int) =~= bits_of(e, a1)) by {
            assert(ext_bits(e, w1) == seq![true] + bits_of(e, a1) + ext_bits(e, w1 / p2(e)));
            assert forall|i: int| 0 <= i < e implies t.subrange(1, 1 + e as int)[i] == bits_of(e, a1)[i] by {
                assert(t[1 + i] == ext_bits(e, w1)[1 + i]);
            }
        }
        assert(t.subrange(1, 1 + e as int) =~= bits_of(e, a2)) by {
            assert(ext_bits(e, w2) == seq![true] + bits_of(e, a2) + ext_bits(e, w2 / p2(e)));
            assert forall|i: int| 0 <= i < e implies t.subrange(1, 1 + e as int)[i] == bits_of(e, a2)[i] by {
                assert(t[1 + i] == ext_bits(e, w2)[1 + i]);
            }
        }
        lemma_value_bits(e, a1);
        lemma_value_bits(e, a2);
        vstd::arithmetic::div_mod::lemma_mod_twice(w1 as int, p2(e) as int);
        vstd::arithmetic::div_mod::lemma_mod_twice(w2 as int, p2(e) as int);
        assert(a1 == a2);
        let t2 = t.skip(1 + e as int);
        let r1 = ext_bits(e, w1 / p2(e));
        let r2 = ext_bits(e, w2 / p2(e));
        assert(t2.take(r1.len() as int) =~= r1) by {
            assert(ext_bits(e, w1) == seq![true] + bits_of(e, a1) + r1);
            assert forall|i: int| 0 <= i < r1.len() implies t2.take(r1.len() as int)[i] == r1[i] by {
                assert(t[1 + e + i] == ext_bits(e, w1)[1 + e + i]);
            }
        }
        assert(t2.take(r2.len() as int) =~= r2) by {
            assert(ext_bits(e, w2) == seq![true] + bits_of(e, a2) + r2);
            assert forall|i: int| 0 <= i < r2.len() implies t2.take(r2.len() as int)[i] == r2[i] by {
                assert(t[1 + e + i] == ext_bits(e, w2)[1 + e + i]);
            }
        }
        assert(w1 / p2(e) < w1) by (nonlinear_arith)
            requires
                p2(e) >= 2,
                w1 >= 1,
        ;
        lemma_ext_bits_unique(e, w1 / p2(e), w2 / p2(e), t2);
        assert(w1 == p2(e) * (w1 / p2(e)) + a1) by (nonlinear_arith)
            requires
                a1 == w1 % p2(e),
                p2(e) >= 2,
        ;
        assert(w2 == p2(e) * (w2 / p2(e)) + a2) by (nonlinear_arith)
            requires
                a2 == w2 % p2(e),
                p2(e) >= 2,
        ;
    }
}

/// A stream starts with the varint of at most one number: reading a varint back gives
/// the number written.
pub proof fn lemma_varint_unique(s: Seq<bool>, base: nat, ext: nat, m1: int, m2: int)
    requires
        ext >= 1,
        starts_with_varint(s, base, ext, m1),
        starts_with_varint(s, base, ext, m2),
    ensures
        m1 == m2,
{
    let (s1, v1) = varint_parts(m1);
    let (s2, v2) = varint_parts(m2);
    lemma_p2_values();
    lemma_p2_pos(base);
    lemma_bits_len(1, s1);
    lemma_bits_len(1, s2);
    lemma_bits_len(base, v1 % p2(base));
    lemma_bits_len(base, v2 % p2(base));
    let b1 = varint_bits(base, ext, m1);
    let b2 = varint_bits(base, ext, m2);
    reveal_with_fuel(bits_of, 2);
    assert(b1[0] == s[0]);
    assert(b2[0] == s[0]);
    assert(s1 == s2);
    let head = s.subrange(1, 1 + base as int);
    assert(head =~= bits_of(base, v1 % p2(base))) by {
        assert forall|i: int| 0 <= i < base implies head[i] == bits_of(base, v1 % p2(base))[i] by {
            assert(s[1 + i] == b1[1 + i]);
        }
    }
    assert(head =~= bits_of(base, v2 % p2(base))) by {
        assert forall|i: int| 0 <= i < base implies head[i] == bits_of(base, v2 % p2(base))[i] by {
            assert(s[1 + i] == b2[1 + i]);
        }
    }
    lemma_value_bits(base, v1 % p2(base));
    lemma_value_bits(base, v2 % p2(base));
    vstd::arithmetic::div_mod::lemma_mod_twice(v1 as int, p2(base) as int);
    vstd::arithmetic::div_mod::lemma_mod_twice(v2 as int, p2(base) as int);
    let t = s.skip(1 + base as int);
    let e1 = ext_bits(ext, v1 / p2(base));
    let e2 = ext_bits(ext, v2 / p2(base));
    assert(t.take(e1.len() as int) =~= e1) by {
        assert forall|i: int| 0 <= i < e1.len() implies t.take(e1.len() as int)[i] == e1[i] by {
            assert(s[1 + base + i] == b1[1 + base + i]);
        }
    }
    assert(t.take(e2.len() as int) =~= e2) by {
        assert forall|i: int| 0 <= i < e2.len() implies t.take(e2.len() as int)[i] == e2[i] by {
            assert(s[1 + base + i] == b2[1 + base + i]);
        }
    }
    lemma_ext_bits_unique(ext, v1 / p2(base), v2 / p2(base), t);
    assert(v1 == p2(base) * (v1 / p2(base)) + v1 % p2(base)) by (nonlinear_arith)
        requires
            p2(base) >= 1,
    ;
    assert(v2 == p2(base) * (v2 / p2(base)) + v2 % p2(base)) by (nonlinear_arith)
        requires
            p2(base) >= 1,
    ;
}

/// The further parts of a varint as the decoder reads them: for each group a 1 bit then
/// its `e` bits, and a 0 bit after the last.
pub open spec fn group_bits(e: nat, gs: Seq<nat>) -> Seq<bool>
    decreases gs.len(),
{
    if gs.len() == 0 {
        seq![false]
    } else {
        seq![true] + bits_of(e, gs[0]) + group_bits(e, gs.drop_first())
    }
}

/// The number that groups of `e` bits stand for, the first group lowest.
pub open spec fn groups_value(e: nat, gs: Seq<nat>) -> nat
    decreases gs.len(),
{
    if gs.len() == 0 {
        0
    } else {
        gs[0] + p2(e) * groups_value(e, gs.drop_first())
    }
}

/// The bits of a varint as the decoder reads it: a sign bit, the `base` low bits of the
/// magnitude, then groups of `ext` bits.
pub open spec fn form_bits(base: nat, ext: nat, sign: nat, low: nat, gs: Seq<nat>) -> Seq<bool> {
    bits_of(1, sign) + bits_of(base, low) + group_bits(ext, gs)
}

/// The magnitude that the low bits and the groups stand for.
pub open spec fn raw_magnitude(base: nat, ext: nat, low: nat, gs: Seq<nat>) -> nat {
    low + p2(base) * groups_value(ext, gs)
}

/// The magnitude as a 32-bit two's complement number: its 32 low bits, bit 31 counting
/// negative.
pub open spec fn form_magnitude(base: nat, ext: nat, low: nat, gs: Seq<nat>) -> int {
    let u = raw_magnitude(base, ext, low, gs) % 0x1_0000_0000;
    if u < 0x8000_0000 {
        u as int
    } else {
        u - 0x1_0000_0000
    }
}

/// The number a varint stands for: the magnitude, or `-magnitude - 1` when the sign bit
/// is set.
pub open spec fn form_value(base: nat, ext: nat, sign: nat, low: nat, gs: Seq<nat>) -> int {
    if sign == 1 {
        -form_magnitude(base, ext, low, gs) - 1
    } else {
        form_magnitude(base, ext, low, gs)
    }
}

/// The stream starts with a varint that the decoder can read: each part fits its width,
/// every group starts below bit 32 of the magnitude, and the number it stands for is an
/// `i32` (a set sign bit with the magnitude `i32::MIN` is not).
pub open spec fn readable_varint(s: Seq<bool>, base: nat, ext: nat, sign: nat, low: nat, gs: Seq<nat>) -> bool {
    &&& sign < 2
    &&& low < p2(base)
    &&& forall|i: int| 0 <= i < gs.len() ==> #[trigger] gs[i] < p2(ext)
    &&& gs.len() == 0 || base + ext * (gs.len() - 1) < 32
    &&& !(sign == 1 && form_magnitude(base, ext, low, gs) == -0x8000_0000)
    &&& form_bits(base, ext, sign, low, gs).len() <= s.len()
    &&& s.take(form_bits(base, ext, sign, low, gs).len() as int) == form_bits(base, ext, sign, low, gs)
}

/// The groups of `e` bits of `w`, lowest first, as `ext_bits` writes them.
pub open spec fn ext_digits(e: nat, w: nat) -> Seq<nat>
    decreases w,
{
    if w == 0 || e == 0 {
        Seq::empty()
    } else {
        proof {
            lemma_p2_mono(1, e);
            lemma_p2_values();
            assert(w / p2(e) < w) by (nonlinear_arith)
                requires
                    p2(e) >= 2,
                    w > 0,
            ;
        }
        seq![w % p2(e)] + ext_digits(e, w / p2(e))
    }
}

proof fn lemma_ext_digits(e: nat, w: nat)
    requires
        e >= 1,
    ensures
        ext_bits(e, w) == group_bits(e, ext_digits(e, w)),
        groups_value(e, ext_digits(e, w)) == w,
        forall|i: int| 0 <= i < ext_digits(e, w).len() ==> #[trigger] ext_digits(e, w)[i] < p2(e),
        ext_digits(e, w).len() > 0 ==> p2((e * (ext_digits(e, w).len() - 1)) as nat) <= w,
    decreases w,
{
    lemma_p2_mono(1, e);
    lemma_p2_values();
    if w > 0 {
        let q = w / p2(e);
        assert(q < w) by (nonlinear_arith)
            requires
                p2(e) >= 2,
                w > 0,
                q == w / p2(e),
        ;
        lemma_ext_digits(e, q);
        let d = ext_digits(e, w);
        let d2 = ext_digits(e, q);
        assert(d.drop_first() =~= d2);
        assert(d[0] == w % p2(e));
        assert(ext_bits(e, w) == group_bits(e, d));
        assert(w == w % p2(e) + p2(e) * q) by (nonlinear_arith)
            requires
                p2(e) >= 2,
                q == w / p2(e),
        ;
        assert forall|i: int| 0 <= i < d.len() implies #[trigger] d[i] < p2(e) by {
            if i > 0 {
                assert(d[i] == d2[i - 1]);
            }
        }
        if d2.len() > 0 {
            lemma_p2_add(e, (e * (d2.len() - 1)) as nat);
            assert(e + e * (d2.len() - 1) == e * (d.len() - 1)) by (nonlinear_arith)
                requires
                    d.len() == d2.len() + 1,
                    d2.len() >= 1,
            ;
            assert(p2(e) * p2((e * (d2.len() - 1)) as nat) <= p2(e) * q) by (nonlinear_arith)
                requires
                    p2((e * (d2.len() - 1)) as nat) <= q,
                    p2(e) >= 2,
            ;
        } else {
            assert(e * (d.len() - 1) == 0) by (nonlinear_arith)
                requires
                    d.len() == 1,
            ;
        }
    }
}

proof fn lemma_groups_value_push(e: nat, t: Seq<nat>, g: nat)
    ensures
        groups_value(e, t.push(g)) == groups_value(e, t) + g * p2(e * t.len()),
    decreases t.len(),
{
    if t.len() == 0 {
        lemma_p2_values();
        assert(t.push(g).drop_first() =~= Seq::<nat>::empty());
        assert(t.push(g)[0] == g);
        assert(groups_value(e, Seq::<nat>::empty()) == 0);
        assert(e * t.len() == 0) by (nonlinear_arith)
            requires
                t.len() == 0,
        ;
        assert(groups_value(e, t) == 0);
    } else {
        let t2 = t.drop_first();
        assert(t.push(g).drop_first() =~= t2.push(g));
        lemma_groups_value_push(e, t2, g);
        lemma_p2_add(e, (e * t2.len()) as nat);
        assert(e + e * t2.len() == e * t.len()) by (nonlinear_arith)
            requires
                t.len() == t2.len() + 1,
        ;
        assert(groups_value(e, t.push(g)) == groups_value(e, t) + g * p2(e * t.len())) by (nonlinear_arith)
            requires
                groups_value(e, t.push(g)) == t[0] + p2(e) * groups_value(e, t2.push(g)),
                groups_value(e, t) == t[0] + p2(e) * groups_value(e, t2),
                groups_value(e, t2.push(g)) == groups_value(e, t2) + g * p2(e * t2.len()),
                p2(e * t.len()) == p2(e) * p2(e * t2.len()),
        ;
    }
}

/// Two readings of groups at the start of a stream agree.
proof fn lemma_group_bits_unique(e: nat, g1: Seq<nat>, g2: Seq<nat>, t: Seq<bool>)
    requires
        forall|i: int| 0 <= i < g1.len() ==> #[trigger] g1[i] < p2(e),
        forall|i: int| 0 <= i < g2.len() ==> #[trigger] g2[i] < p2(e),
        group_bits(e, g1).len() <= t.len(),
        t.take(group_bits(e, g1).len() as int) == group_bits(e, g1),
        group_bits(e, g2).len() <= t.len(),
        t.take(group_bits(e, g2).len() as int) == group_bits(e, g2),
    ensures
        g1 == g2,
    decreases g1.len(),
{
    assert(group_bits(e, g1)[0] == t[0]);
    assert(group_bits(e, g2)[0] == t[0]);
    if g1.len() == 0 {
        assert(g2.len() == 0);
        assert(g1 =~= g2);
    } else {
        assert(g2.len() > 0);
        let a1 = g1[0];
        let a2 = g2[0];
        let b1 = group_bits(e, g1);
        let b2 = group_bits(e, g2);
        lemma_bits_len(e, a1);
        lemma_bits_len(e, a2);
        assert(t.subrange(1, 1 + e as int) =~= bits_of(e, a1)) by {
            assert forall|i: int| 0 <= i < e implies t.subrange(1, 1 + e as int)[i] == bits_of(e, a1)[i] by {
                assert(t[1 + i] == b1[1 + i]);
            }
        }
        assert(t.subrange(1, 1 + e as int) =~= bits_of(e, a2)) by {
            assert forall|i: int| 0 <= i < e implies t.subrange(1, 1 + e as int)[i] == bits_of(e, a2)[i] by {
                assert(t[1 + i] == b2[1 + i]);
            }
        }
        lemma_value_bits(e, a1);
        lemma_value_bits(e, a2);
        vstd::arithmetic::div_mod::lemma_small_mod(a1, p2(e));
        vstd::arithmetic::div_mod::lemma_small_mod(a2, p2(e));
        assert(a1 == a2);
        let t2 = t.skip(1 + e as int);
        let h1 = g1.drop_first();
        let h2 = g2.drop_first();
        let r1 = group_bits(e, h1);
        let r2 = group_bits(e, h2);
        assert(t2.take(r1.len() as int) =~= r1) by {
            assert forall|i: int| 0 <= i < r1.len() implies t2.take(r1.len() as int)[i] == r1[i] by {
                assert(t[1 + e + i] == b1[1 + e + i]);
            }
        }
        assert(t2.take(r2.len() as int) =~= r2) by {
            assert forall|i: int| 0 <= i < r2.len() implies t2.take(r2.len() as int)[i] == r2[i] by {
                assert(t[1 + e + i] == b2[1 + e + i]);
            }
        }
        assert forall|i: int| 0 <= i < h1.len() implies #[trigger] h1[i] < p2(e) by {
            assert(h1[i] == g1[i + 1]);
        }
        assert forall|i: int| 0 <= i < h2.len() implies #[trigger] h2[i] < p2(e) by {
            assert(h2[i] == g2[i + 1]);
        }
        lemma_group_bits_unique(e, h1, h2, t2);
        assert(g1 =~= seq![a1] + h1);
        assert(g2 =~= seq![a2] + h2);
    }
}

/// A stream starts with at most one readable varint.
pub proof fn lemma_readable_unique(
    s: Seq<bool>,
    base: nat,
    ext: nat,
    sign1: nat,
    low1: nat,
    gs1: Seq<nat>,
    sign2: nat,
    low2: nat,
    gs2: Seq<nat>,
)
    requires
        readable_varint(s, base, ext, sign1, low1, gs1),
        readable_varint(s, base, ext, sign2, low2, gs2),
    ensures
        sign1 == sign2,
        low1 == low2,
        gs1 == gs2,
{
    lemma_p2_values();
    lemma_bits_len(1, sign1);
    lemma_bits_len(1, sign2);
    lemma_bits_len(base, low1);
    lemma_bits_len(base, low2);
    let b1 = form_bits(base, ext, sign1, low1, gs1);
    let b2 = form_bits(base, ext, sign2, low2, gs2);
    reveal_with_fuel(bits_of, 2);
    assert(b1[0] == s[0]);
    assert(b2[0] == s[0]);
    assert(sign1 == sign2);
    let head = s.subrange(1, 1 + base as int);
    assert(head =~= bits_of(base, low1)) by {
        assert forall|i: int| 0 <= i < base implies head[i] == bits_of(base, low1)[i] by {
            assert(s[1 + i] == b1[1 + i]);
        }
    }
    assert(head =~= bits_of(base, low2)) by {
        assert forall|i: int| 0 <= i < base implies head[i] == bits_of(base, low2)[i] by {
            assert(s[1 + i] == b2[1 + i]);
        }
    }
    lemma_value_bits(base, low1);
    lemma_value_bits(base, low2);
    vstd::arithmetic::div_mod::lemma_small_mod(low1, p2(base));
    vstd::arithmetic::div_mod::lemma_small_mod(low2, p2(base));
    let t = s.skip(1 + base as int);
    let e1 = group_bits(ext, gs1);
    let e2 = group_bits(ext, gs2);
    assert(t.take(e1.len() as int) =~= e1) by {
        assert forall|i: int| 0 <= i < e1.len() implies t.take(e1.len() as int)[i] == e1[i] by {
            assert(s[1 + base + i] == b1[1 + base + i]);
        }
    }
    assert(t.take(e2.len() as int) =~= e2) by {
        assert forall|i: int| 0 <= i < e2.len() implies t.take(e2.len() as int)[i] == e2[i] by {
            assert(s[1 + base + i] == b2[1 + base + i]);
        }
    }
    lemma_group_bits_unique(ext, gs1, gs2, t);
}

/// The varint that `encode_varint` writes is readable, and reads as the number written.
pub proof fn lemma_varint_readable(s: Seq<bool>, base: nat, ext: nat, m: i32) -> (r: (nat, nat, Seq<nat>))
    requires
        1 <= base <= 30,
        1 <= ext <= 30,
        starts_with_varint(s, base, ext, m as int),
    ensures
        readable_varint(s, base, ext, r.0, r.1, r.2),
        form_value(base, ext, r.0, r.1, r.2) == m,
        form_bits(base, ext, r.0, r.1, r.2) == varint_bits(base, ext, m as int),
{
    let (sign, v) = varint_parts(m as int);
    lemma_p2_pos(base);
    let low = v % p2(base);
    let w = v / p2(base);
    let gs = ext_digits(ext, w);
    lemma_ext_digits(ext, w);
    assert(form_bits(base, ext, sign, low, gs) == varint_bits(base, ext, m as int));
    assert(v < 0x8000_0000);
    assert(v == low + p2(base) * w) by (nonlinear_arith)
        requires
            p2(base) >= 1,
            low == v % p2(base),
            w == v / p2(base),
    ;
    assert(raw_magnitude(base, ext, low, gs) == v);
    vstd::arithmetic::div_mod::lemma_small_mod(v, 0x1_0000_0000);
    assert(form_magnitude(base, ext, low, gs) == v);
    if gs.len() > 0 {
        let k = (ext * (gs.len() - 1)) as nat;
        lemma_p2_add(base, k);
        assert(p2(base) * p2(k) <= v) by (nonlinear_arith)
            requires
                p2(k) <= w,
                v == low + p2(base) * w,
                p2(base) >= 1,
        ;
        if base + k >= 31 {
            lemma_p2_mono(31, base + k);
            assert(p2(31) == 0x8000_0000) by {
                vstd::arithmetic::power2::lemma2_to64();
            }
        }
    }
    (sign, low, gs)
}

/// Turns bits into text that is valid UTF-8: 7 bits per character, but for 7-bit groups
/// that would be control codes, which are written together with the next group as one
/// two-byte character.
pub struct Base128Encoder {
    output: Vec<char>,
    special: Option<u32>,
    num_buffered_bits: u32,
    buffered_bits: u64,
    groups: Ghost<Seq<u8>>,
}

impl Base128Encoder {
    /// All bits encoded so far.
    pub closed spec fn bits(self) -> Seq<bool> {
        groups_stream(self.groups@) + bits_of(self.num_buffered_bits as nat, self.buffered_bits as nat)
    }

    pub closed spec fn wf(self) -> bool {
        &&& self.num_buffered_bits < 7
        &&& self.buffered_bits < p2(self.num_buffered_bits as nat)
        &&& are_groups(self.groups@)
        &&& enc_state(self.groups@) == (self.output@, self.special)
    }

    /// An encoder with no bits yet.
    pub fn new() -> (r: Base128Encoder)
        ensures
            r.wf(),
            r.bits() == Seq::<bool>::empty(),
    {
        let r = Base128Encoder {
            output: Vec::new(),
            special: None,
            num_buffered_bits: 0,
            buffered_bits: 0,
            groups: Ghost(Seq::empty()),
        };
        proof {
            lemma_p2_values();
            assert(r.bits() =~= Seq::<bool>::empty());
        }
        r
    }

    /// Appends the `n` low bits of `bits`, least significant first.
    pub fn encode_bits(&mut self, n: u32, bits: u32)
        requires
            old(self).wf(),
            n <= 32,
            n == 32 || bits < p2(n as nat),
        ensures
            final(self).wf(),
            final(self).bits() == old(self).bits() + bits_of(n as nat, bits as nat),
    {
        let ghost target = self.bits() + bits_of(n as nat, bits as nat);
        let num = self.num_buffered_bits;
        let pw = pow2_u64(num);
        proof {
            lemma_p2_values();
            lemma_p2_mono(n as nat, 32);
            lemma_p2_mono(num as nat, 6);
            lemma_bits_concat(num as nat, n as nat, self.buffered_bits as nat, bits as nat);
            lemma_p2_add(num as nat, n as nat);
            lemma_p2_mono((num + n) as nat, 38);
            lemma_p2_add(32, 6);
            assert(self.buffered_bits + (bits as int) * (pw as int) < (pw as int) * p2(n as nat)) by (nonlinear_arith)
                requires
                    self.buffered_bits < pw,
                    bits < p2(n as nat),
                    p2(n as nat) >= 1,
            ;
            assert((pw as int) * p2(n as nat) <= 0x40_0000_0000);
            assert((bits as int) * (pw as int) == p2(num as nat) * bits) by (nonlinear_arith)
                requires
                    pw == p2(num as nat),
            ;
        }
        self.buffered_bits = self.buffered_bits + (bits as u64) * pw;
        self.num_buffered_bits = num + n;
        proof {
            assert(groups_stream(self.groups@) + bits_of(self.num_buffered_bits as nat, self.buffered_bits as nat) =~= target);
        }
        while self.num_buffered_bits >= 7
            invariant
                self.num_buffered_bits <= 38,
                self.buffered_bits < p2(self.num_buffered_bits as nat),
                are_groups(self.groups@),
                enc_state(self.groups@) == (self.output@, self.special),
                groups_stream(self.groups@) + bits_of(self.num_buffered_bits as nat, self.buffered_bits as nat) == target,
            decreases self.num_buffered_bits,
        {
            let ascii = (self.buffered_bits % 128) as u8;
            let ghost rest = (self.num_buffered_bits - 7) as nat;
            proof {
                lemma_p2_values();
                lemma_bits_split(7, rest, self.buffered_bits as nat);
                lemma_p2_add(7, rest);
                assert(self.buffered_bits as nat / 128 < p2(rest)) by (nonlinear_arith)
                    requires
                        self.buffered_bits < 128 * p2(rest),
                ;
                lemma_groups_stream_push(self.groups@, ascii);
            }
            self.buffered_bits = self.buffered_bits / 128;
            self.num_buffered_bits = self.num_buffered_bits - 7;
            self.push_ascii(ascii);
            proof {
                assert(groups_stream(self.groups@) + bits_of(self.num_buffered_bits as nat, self.buffered_bits as nat) =~= target);
            }
        }
    }

    /// Appends the varint of `n`.
    pub fn encode_varint(&mut self, n: i32)
        requires
            old(self).wf(),
        ensures
            final(self).wf(),
            final(self).bits() == old(self).bits() + varint_bits(5, 2, n as int),
    {
        let ghost target = self.bits() + varint_bits(5, 2, n as int);
        let sign_bit: u32 = if n < 0 {
            1
        } else {
            0
        };
        let mut val: u32 = if n < 0 {
            (-(n as i64 + 1)) as u32
        } else {
            n as u32
        };
        proof {
            lemma_p2_values();
            assert(varint_parts(n as int) == (sign_bit as nat, val as nat));
        }
        self.encode_bits(1, sign_bit);
        self.encode_bits(5, val % 32);
        val = val / 32;
        proof {
            assert(self.bits() + ext_bits(2, val as nat) =~= target);
        }
        while val != 0
            invariant
                self.wf(),
                self.bits() + ext_bits(2, val as nat) == target,
            decreases val,
        {
            proof {
                lemma_p2_values();
            }
            let ghost before = self.bits();
            self.encode_bits(1, 1);
            self.encode_bits(2, val % 4);
            proof {
                reveal_with_fuel(bits_of, 2);
                assert(bits_of(1, 1) =~= seq![true]);
                assert(ext_bits(2, val as nat) == seq![true] + bits_of(2, val as nat % 4) + ext_bits(2, val as nat / 4));
                assert(self.bits() + ext_bits(2, (val / 4) as nat) =~= before + ext_bits(2, val as nat));
            }
            val = val / 4;
        }
        proof {
            lemma_p2_values();
        }
        let ghost before = self.bits();
        self.encode_bits(1, 0);
        proof {
            reveal_with_fuel(bits_of, 2);
            assert(bits_of(1, 0) =~= seq![false]);
            assert(self.bits() =~= before + ext_bits(2, 0));
        }
    }

    /// Appends a 7-bit group to the output.
    fn push_ascii(&mut self, ascii: u8)
        requires
            ascii < 128,
            are_groups(old(self).groups@),
            enc_state(old(self).groups@) == (old(self).output@, old(self).special),
        ensures
            final(self).groups@ == old(self).groups@.push(ascii),
            are_groups(final(self).groups@),
            enc_state(final(self).groups@) == (final(self).output@, final(self).special),
            final(self).num_buffered_bits == old(self).num_buffered_bits,
            final(self).buffered_bits == old(self).buffered_bits,
    {
        let ghost gs = self.groups@.push(ascii);
        proof {
            assert(gs.drop_last() =~= self.groups@);
        }
        match self.special {
            None => match ascii_to_special(ascii) {
                None => {
                    self.output.push(ascii as char);
                },
                Some(special) => {
                    self.special = Some(special);
                },
            },
            Some(special) => {
                proof {
                    lemma_decode_enc_state(self.groups@);
                }
                let code = special * 128 + ascii as u32;
                self.output.push(char_of_code(code));
                self.special = None;
            },
        }
        self.groups = Ghost(gs);
        proof {
            assert(are_groups(gs));
        }
    }

    /// The text: the bits encoded, an end marker (a 1 bit), and zeros up to the end of the
    /// last character.
    pub fn finish(self) -> (r: String)
        requires
            self.wf(),
        ensures
            r@ == spec_encode(self.bits()),
    {
        let ghost bs = self.bits();
        let mut e = self;
        proof {
            lemma_p2_values();
        }
        e.encode_bits(1, 1);
        let ghost b1 = e.bits();
        assert(b1 == bs.push(true)) by {
            lemma_p2_values();
            reveal_with_fuel(bits_of, 2);
            assert(bits_of(1, 1) =~= seq![true]);
        }
        proof {
            lemma_groups_stream_len(e.groups@);
            lemma_bits_len(e.num_buffered_bits as nat, e.buffered_bits as nat);
        }
        let ghost g0 = e.groups@.len();
        let ghost n0 = e.num_buffered_bits as nat;
        assert(b1.len() == 7 * g0 + n0);
        let ghost pad: nat;
        if e.num_buffered_bits != 0 {
            let k = 7 - e.num_buffered_bits;
            proof {
                lemma_p2_pos(k as nat);
            }
            e.encode_bits(k, 0);
            proof {
                pad = k as nat;
            }
        } else {
            proof {
                pad = 0;
            }
        }
        proof {
            crate::bits::lemma_bits_zero(pad);
            lemma_bits_len(pad, 0);
            lemma_groups_stream_len(e.groups@);
            lemma_bits_len(e.num_buffered_bits as nat, e.buffered_bits as nat);
            assert(e.bits().len() == 7 * g0 + n0 + pad);
            assert(e.bits().len() == 7 * e.groups@.len() + e.num_buffered_bits);
            assert(e.num_buffered_bits == 0);
            assert(bits_of(0, e.buffered_bits as nat) =~= Seq::<bool>::empty());
            assert(e.bits() =~= groups_stream(e.groups@));
            assert(pad == ((7 - b1.len() % 7) % 7) as nat);
            assert(e.bits() =~= finish_bits(bs));
            lemma_groups_of_stream(e.groups@);
        }
        let ghost gs = e.groups@;
        if e.special.is_some() {
            proof {
                lemma_p2_values();
            }
            e.encode_bits(7, 0);
            proof {
                crate::bits::lemma_bits_zero(7);
                lemma_groups_stream_len(e.groups@);
                lemma_groups_stream_len(gs);
                lemma_bits_len(e.num_buffered_bits as nat, e.buffered_bits as nat);
                lemma_bits_len(7, 0);
                assert(e.bits().len() == 7 * gs.len() + 7);
                assert(e.bits().len() == 7 * e.groups@.len() + e.num_buffered_bits);
                assert(e.num_buffered_bits == 0);
                assert(bits_of(0, e.buffered_bits as nat) =~= Seq::<bool>::empty());
                lemma_groups_stream_push(gs, 0u8);
                lemma_value_bits(7, 0);
                assert(groups_stream(e.groups@) =~= groups_stream(gs.push(0u8)));
                lemma_groups_of_stream(e.groups@);
                lemma_groups_of_stream(gs.push(0u8));
                assert(are_groups(gs.push(0u8)));
            }
        }
        string_of_chars(e.output)
    }
}

/// The groups of the characters of a text up to the first one that is not in the format.
pub open spec fn front_groups(cs: Seq<char>) -> Seq<u8>
    decreases cs.len(),
{
    if cs.len() == 0 {
        Seq::empty()
    } else {
        match char_groups(cs[0]) {
            None => Seq::empty(),
            Some(g) => g + front_groups(cs.skip(1)),
        }
    }
}

proof fn lemma_front_groups_concat(a: Seq<char>, b: Seq<char>)
    requires
        forall|i: int| 0 <= i < a.len() ==> (#[trigger] char_groups(a[i])) is Some,
    ensures
        front_groups(a + b) == front_groups(a) + front_groups(b),
    decreases a.len(),
{
    if a.len() == 0 {
        assert(a + b =~= b);
        assert(front_groups(a) + front_groups(b) =~= front_groups(b));
    } else {
        assert(char_groups(a[0]) is Some);
        lemma_front_groups_concat(a.skip(1), b);
        assert((a + b).skip(1) =~= a.skip(1) + b);
        assert((a + b)[0] == a[0]);
        assert(front_groups(a + b) =~= front_groups(a) + front_groups(b));
    }
}

/// A text all of whose characters are in the format decodes to the groups of its
/// characters.
proof fn lemma_front_groups_valid(cs: Seq<char>)
    requires
        chars_groups(cs) is Some,
    ensures
        forall|i: int| 0 <= i < cs.len() ==> (#[trigger] char_groups(cs[i])) is Some,
        front_groups(cs) == chars_groups(cs)->0,
    decreases cs.len(),
{
    if cs.len() > 0 {
        let a = cs.drop_last();
        let c = cs.last();
        lemma_front_groups_valid(a);
        assert forall|i: int| 0 <= i < cs.len() implies (#[trigger] char_groups(cs[i])) is Some by {
            if i < a.len() {
                assert(cs[i] == a[i]);
            }
        }
        lemma_front_groups_concat(a, seq![c]);
        assert(cs =~= a + seq![c]);
        assert(seq![c].skip(1) =~= Seq::<char>::empty());
        reveal_with_fuel(front_groups, 2);
        assert(seq![c][0] == c);
        assert(front_groups(seq![c]) =~= char_groups(c)->0);
    } else {
        assert(front_groups(cs) =~= chars_groups(cs)->0);
    }
}

/// The text of a stream of bits decodes to the stream, the end marker, and zeros (less
/// than two characters' worth).
pub proof fn lemma_encode_decode(bs: Seq<bool>)
    ensures
        exists|k: nat|
            k < 14 && groups_stream(front_groups(spec_encode(bs))) == bs + seq![true] + #[trigger] zeros(k),
{
    let fb = finish_bits(bs);
    let b1 = bs.push(true);
    let pad = ((7 - b1.len() % 7) % 7) as nat;
    assert(fb.len() % 7 == 0);
    let gs = groups_of(fb);
    assert(are_groups(gs)) by {
        assert forall|i: int| 0 <= i < gs.len() implies #[trigger] gs[i] < 128 by {
            lemma_value_bound(fb.subrange(7 * i, 7 * i + 7));
            lemma_p2_values();
        }
    }
    lemma_stream_of_groups_of(fb);
    if enc_state(gs).1 is None {
        lemma_decode_enc_state(gs);
        lemma_front_groups_valid(enc_state(gs).0);
        assert(bs + seq![true] + zeros(pad) =~= fb);
        assert(spec_encode(bs) == enc_state(gs).0);
        assert(groups_stream(front_groups(spec_encode(bs))) == bs + seq![true] + zeros(pad));
    } else {
        let gs2 = gs.push(0u8);
        assert(are_groups(gs2));
        assert(gs2.drop_last() =~= gs);
        lemma_decode_enc_state(gs2);
        lemma_front_groups_valid(enc_state(gs2).0);
        lemma_groups_stream_push(gs, 0u8);
        crate::bits::lemma_bits_zero(7);
        assert(bs + seq![true] + zeros(pad + 7) =~= fb + zeros(7));
        assert(spec_encode(bs) == enc_state(gs2).0);
        assert(groups_stream(gs2) == fb + zeros(7));
        assert(groups_stream(front_groups(spec_encode(bs))) == bs + seq![true] + zeros(pad + 7));
    }
}

/// A stream whose length is a multiple of 7 is the stream of its groups.
proof fn lemma_stream_of_groups_of(bs: Seq<bool>)
    requires
        bs.len() % 7 == 0,
    ensures
        groups_stream(groups_of(bs)) == bs,
    decreases bs.len(),
{
    if bs.len() > 0 {
        let n = bs.len() as int;
        let prev = bs.subrange(0, n - 7);
        lemma_stream_of_groups_of(prev);
        let gs = groups_of(bs);
        assert(gs.drop_last() =~= groups_of(prev)) by {
            assert forall|k: int| 0 <= k < groups_of(prev).len() implies gs.drop_last()[k] == groups_of(prev)[k] by {
                assert(bs.subrange(7 * k, 7 * k + 7) =~= prev.subrange(7 * k, 7 * k + 7));
            }
        }
        let last = bs.subrange(n - 7, n);
        lemma_value_bound(last);
        lemma_p2_values();
        assert(gs.last() as nat == value_of(last));
        lemma_bits_value(last);
        assert(prev + last =~= bs);
    } else {
        assert(groups_stream(groups_of(bs)) =~= bs);
    }
}

/// Reads back the bits of a text written by `Base128Encoder`.
pub struct Base128Decoder {
    input: Vec<char>,
    pos: usize,
    num_buffered_bits: u32,
    buffered_bits: u64,
}

impl Base128Decoder {
    /// The characters not read yet.
    pub closed spec fn rest(self) -> Seq<char> {
        self.input@.subrange(self.pos as int, self.input@.len() as int)
    }

    /// The bits that can still be read: those buffered, then those of the characters not
    /// read yet, up to the first one that is not in the format.
    pub closed spec fn stream(self) -> Seq<bool> {
        bits_of(self.num_buffered_bits as nat, self.buffered_bits as nat) + groups_stream(
            front_groups(self.rest()),
        )
    }

    pub closed spec fn wf(self) -> bool {
        &&& self.pos <= self.input@.len()
        &&& self.num_buffered_bits <= 14
        &&& self.buffered_bits < p2(self.num_buffered_bits as nat)
    }

    /// The decoder can finish: the next bit is the end marker, and no other bit than zeros
    /// is buffered nor any character left, once it is read.
    pub closed spec fn can_finish(self) -> bool {
        if self.num_buffered_bits >= 1 {
            &&& self.buffered_bits % 2 == 1
            &&& self.buffered_bits / 2 == 0
            &&& self.pos == self.input@.len()
        } else {
            &&& self.pos + 1 == self.input@.len()
            &&& char_groups(self.input@[self.pos as int]) is Some
            &&& value_of(groups_stream(char_groups(self.input@[self.pos as int])->0)) == 1
        }
    }

    /// Whether the decoder can finish now: the next bit is the end marker, followed only
    /// by zeros up to the end of the text.
    pub fn can_finish_now(&self) -> (r: bool)
        requires
            self.wf(),
        ensures
            r == self.can_finish(),
    {
        if self.num_buffered_bits >= 1 {
            return self.buffered_bits % 2 == 1 && self.buffered_bits / 2 == 0 && self.pos == self.input.len();
        }
        if self.pos >= self.input.len() || self.pos != self.input.len() - 1 {
            return false;
        }
        let c = self.input[self.pos];
        if !char_in_format(c) {
            return false;
        }
        let (k, bits) = Base128Decoder::decode_char(c);
        proof {
            lemma_value_bits(k as nat, bits as nat);
            vstd::arithmetic::div_mod::lemma_small_mod(bits as nat, p2(k as nat));
        }
        bits == 1
    }

    /// A decoder of the text `s`.
    pub fn new(s: &str) -> (r: Base128Decoder)
        ensures
            r.wf(),
            r.stream() == groups_stream(front_groups(s@)),
    {
        let input = chars_of_str(s);
        let r = Base128Decoder { input, pos: 0, num_buffered_bits: 0, buffered_bits: 0 };
        proof {
            lemma_p2_values();
            assert(r.rest() =~= s@);
            assert(r.stream() =~= groups_stream(front_groups(s@)));
        }
        r
    }

    /// The number of bits and the bits a character of the format stands for.
    fn decode_char(c: char) -> (r: (u32, u32))
        requires
            char_groups(c) is Some,
        ensures
            r.0 == 7 || r.0 == 14,
            r.1 < p2(r.0 as nat),
            groups_stream(char_groups(c)->0) == bits_of(r.0 as nat, r.1 as nat),
    {
        let code = c as u32;
        proof {
            lemma_p2_values();
        }
        if code < 128 {
            proof {
                let g = seq![code as u8];
                lemma_groups_stream_push(Seq::<u8>::empty(), code as u8);
                assert(Seq::<u8>::empty().push(code as u8) =~= g);
                assert(groups_stream(Seq::<u8>::empty()) =~= Seq::<bool>::empty());
                assert(groups_stream(g) =~= bits_of(7, code as nat));
            }
            (7, code)
        } else {
            let special = code / 128;
            let v = special_map(special as usize);
            match v {
                Some(v) => {
                    let low = code % 128;
                    proof {
                        let g = seq![v, low as u8];
                        assert(g.drop_last() =~= seq![v]);
                        assert(seq![v].drop_last() =~= Seq::<u8>::empty());
                        lemma_groups_stream_push(seq![v], low as u8);
                        lemma_groups_stream_push(Seq::<u8>::empty(), v);
                        assert(Seq::<u8>::empty().push(v) =~= seq![v]);
                        assert(groups_stream(Seq::<u8>::empty()) =~= Seq::<bool>::empty());
                        assert(groups_stream(seq![v]) =~= bits_of(7, v as nat));
                        assert(v < 128);
                        lemma_bits_concat(7, 7, v as nat, low as nat);
                        assert(groups_stream(g) =~= bits_of(14, v as nat + 128 * low as nat));
                    }
                    (14, v as u32 + 128 * low)
                },
                None => {
                    proof {
                        assert(false);
                    }
                    (7, 0)
                },
            }
        }
    }

    /// Reads a varint with `base` bits in its first part and `ext` bits in each further
    /// part. The stream must start with a readable varint; one written by `encode_varint`
    /// reads back as the number written.
    #[verifier::rlimit(60)]
    #[verifier::spinoff_prover]
    pub fn decode_varint_with(&mut self, base: u32, ext: u32) -> (r: i32)
        requires
            old(self).wf(),
            1 <= base <= 30,
            1 <= ext <= 30,
            exists|sign: nat, low: nat, gs: Seq<nat>|
                #[trigger] readable_varint(old(self).stream(), base as nat, ext as nat, sign, low, gs),
        ensures
            final(self).wf(),
            forall|sign: nat, low: nat, gs: Seq<nat>|
                #[trigger] readable_varint(old(self).stream(), base as nat, ext as nat, sign, low, gs) ==> r
                    == form_value(base as nat, ext as nat, sign, low, gs) && final(self).stream() == old(
                    self,
                ).stream().skip(form_bits(base as nat, ext as nat, sign, low, gs).len() as int),
            forall|m: i32|
                #[trigger] starts_with_varint(old(self).stream(), base as nat, ext as nat, m as int) ==> r == m
                    && final(self).stream() == old(self).stream().skip(
                    varint_bits(base as nat, ext as nat, m as int).len() as int,
                ),
    {
        let ghost s0 = self.stream();
        let ghost (sign, low, gs) = choose|sign: nat, low: nat, gs: Seq<nat>|
            #[trigger] readable_varint(s0, base as nat, ext as nat, sign, low, gs);
        let ghost fb = form_bits(base as nat, ext as nat, sign, low, gs);
        let ghost rest = s0.skip(fb.len() as int);
        proof {
            lemma_p2_values();
            lemma_bits_len(1, sign);
            lemma_bits_len(base as nat, low);
            assert(s0 =~= fb + rest);
            assert(s0 =~= bits_of(1, sign) + (bits_of(base as nat, low) + (group_bits(ext as nat, gs) + rest)));
        }
        let sign_bit = self.decode_bits(1);
        proof {
            lemma_value_bits(1, sign);
            assert(s0.take(1) =~= bits_of(1, sign));
            assert(sign_bit == sign);
            assert(self.stream() =~= bits_of(base as nat, low) + (group_bits(ext as nat, gs) + rest));
        }
        let ghost s1 = self.stream();
        let low_bits = self.decode_bits(base);
        proof {
            assert(s1.take(base as int) =~= bits_of(base as nat, low));
            lemma_value_bits(base as nat, low);
            vstd::arithmetic::div_mod::lemma_small_mod(low, p2(base as nat));
            assert(low_bits == low);
            assert(self.stream() =~= group_bits(ext as nat, gs) + rest);
            assert(gs.skip(0) =~= gs);
            assert(gs.take(0) =~= Seq::<nat>::empty());
            assert(groups_value(ext as nat, Seq::<nat>::empty()) == 0);
            assert(raw_magnitude(base as nat, ext as nat, low, gs.take(0)) == low);
            lemma_p2_pos(base as nat);
            lemma_p2_mono(base as nat, 30);
            assert(p2(30) == 0x4000_0000) by {
                vstd::arithmetic::power2::lemma2_to64();
            }
            vstd::arithmetic::div_mod::lemma_small_mod(low, 0x1_0000_0000);
        }
        // The magnitude read so far, modulo 2^32.
        let mut acc: u64 = low_bits as u64;
        let mut shift: u32 = base;
        let ghost mut i: nat = 0;
        let mut more = self.read_continuation(Ghost(ext as nat), Ghost(gs), Ghost(i), Ghost(rest));
        while more
            invariant
                self.wf(),
                1 <= base <= 30,
                1 <= ext <= 30,
                readable_varint(s0, base as nat, ext as nat, sign, low, gs),
                i <= gs.len(),
                shift == base + ext * i,
                acc == raw_magnitude(base as nat, ext as nat, low, gs.take(i as int)) % 0x1_0000_0000,
                raw_magnitude(base as nat, ext as nat, low, gs.take(i as int)) < p2(shift as nat),
                more <==> i < gs.len(),
                i < gs.len() ==> self.stream() == bits_of(ext as nat, gs[i as int]) + (group_bits(
                    ext as nat,
                    gs.skip(i as int + 1),
                ) + rest),
                i == gs.len() ==> self.stream() == rest,
            decreases gs.len() - i,
        {
            let ghost s3 = self.stream();
            let ghost g = gs[i as int];
            proof {
                lemma_bits_len(ext as nat, g);
                assert(g < p2(ext as nat));
                assert(shift < 32) by (nonlinear_arith)
                    requires
                        shift == base + ext * i,
                        base + ext * (gs.len() - 1) < 32,
                        i < gs.len(),
                        ext >= 1,
                ;
            }
            let e = self.decode_bits(ext);
            proof {
                assert(s3.take(ext as int) =~= bits_of(ext as nat, g));
                lemma_value_bits(ext as nat, g);
                vstd::arithmetic::div_mod::lemma_small_mod(g, p2(ext as nat));
                assert(e == g);
                assert(self.stream() =~= group_bits(ext as nat, gs.skip(i as int + 1)) + rest);
                lemma_p2_mono(ext as nat, 30);
                lemma_p2_mono(shift as nat, 31);
                assert(p2(30) == 0x4000_0000 && p2(31) == 0x8000_0000) by {
                    vstd::arithmetic::power2::lemma2_to64();
                }
            }
            let pw = pow2_u64(shift);
            let ghost old_acc = acc;
            proof {
                assert((e as int) * (pw as int) <= 0x4000_0000 * 0x8000_0000) by (nonlinear_arith)
                    requires
                        e < 0x4000_0000,
                        pw <= 0x8000_0000,
                ;
            }
            acc = (acc + (e as u64) * pw) % 0x1_0000_0000;
            proof {
                let t0 = gs.take(i as int);
                let raw0 = raw_magnitude(base as nat, ext as nat, low, t0);
                lemma_groups_value_push(ext as nat, t0, g);
                assert(gs.take(i as int + 1) =~= t0.push(g));
                lemma_p2_add(base as nat, (ext * i) as nat);
                lemma_p2_add(shift as nat, ext as nat);
                let raw1 = raw_magnitude(base as nat, ext as nat, low, gs.take(i as int + 1));
                assert(raw1 == raw0 + g * p2(shift as nat)) by (nonlinear_arith)
                    requires
                        raw0 == low + p2(base as nat) * groups_value(ext as nat, t0),
                        raw1 == low + p2(base as nat) * groups_value(ext as nat, t0.push(g)),
                        groups_value(ext as nat, t0.push(g)) == groups_value(ext as nat, t0) + g * p2(
                            ext as nat * t0.len(),
                        ),
                        t0.len() == i,
                        p2(shift as nat) == p2(base as nat) * p2((ext * i) as nat),
                ;
                assert(raw1 < p2((shift + ext) as nat)) by (nonlinear_arith)
                    requires
                        raw1 == raw0 + g * p2(shift as nat),
                        raw0 < p2(shift as nat),
                        g < p2(ext as nat),
                        p2((shift + ext) as nat) == p2(shift as nat) * p2(ext as nat),
                ;
                assert(acc == raw1 % 0x1_0000_0000) by (nonlinear_arith)
                    requires
                        acc == (old_acc + g * p2(shift as nat)) % 0x1_0000_0000,
                        old_acc == raw0 % 0x1_0000_0000,
                        raw1 == raw0 + g * p2(shift as nat),
                ;
            }
            shift = shift + ext;
            proof {
                assert(shift == base + ext * (i + 1)) by (nonlinear_arith)
                    requires
                        shift == base + ext * i + ext,
                ;
                i = i + 1;
            }
            more = self.read_continuation(Ghost(ext as nat), Ghost(gs), Ghost(i), Ghost(rest));
        }
        proof {
            assert(gs.take(gs.len() as int) =~= gs);
        }
        let m: i64 = if acc < 0x8000_0000 {
            acc as i64
        } else {
            acc as i64 - 0x1_0000_0000
        };
        let r: i32 = if sign_bit != 0 {
            (-m - 1) as i32
        } else {
            m as i32
        };
        proof {
            assert(m == form_magnitude(base as nat, ext as nat, low, gs));
            assert(r == form_value(base as nat, ext as nat, sign, low, gs));
            assert(self.stream() == s0.skip(fb.len() as int));
            assert forall|sign2: nat, low2: nat, gs2: Seq<nat>|
                #[trigger] readable_varint(s0, base as nat, ext as nat, sign2, low2, gs2) implies r
                    == form_value(base as nat, ext as nat, sign2, low2, gs2) && self.stream() == s0.skip(
                    form_bits(base as nat, ext as nat, sign2, low2, gs2).len() as int,
                ) by {
                lemma_readable_unique(s0, base as nat, ext as nat, sign, low, gs, sign2, low2, gs2);
            }
            assert forall|m2: i32|
                #[trigger] starts_with_varint(s0, base as nat, ext as nat, m2 as int) implies r == m2
                    && self.stream() == s0.skip(varint_bits(base as nat, ext as nat, m2 as int).len() as int) by {
                let (sign2, low2, gs2) = lemma_varint_readable(s0, base as nat, ext as nat, m2);
                lemma_readable_unique(s0, base as nat, ext as nat, sign, low, gs, sign2, low2, gs2);
            }
        }
        r
    }

    /// Reads the bit before a group: 1 when the group at `i` follows, 0 after the last.
    fn read_continuation(&mut self, Ghost(ext): Ghost<nat>, Ghost(gs): Ghost<Seq<nat>>, Ghost(i): Ghost<nat>, Ghost(rest): Ghost<Seq<bool>>) -> (more: bool)
        requires
            old(self).wf(),
            i <= gs.len(),
            old(self).stream() == group_bits(ext, gs.skip(i as int)) + rest,
        ensures
            final(self).wf(),
            more <==> i < gs.len(),
            i < gs.len() ==> final(self).stream() == bits_of(ext, gs[i as int]) + (group_bits(
                ext,
                gs.skip(i as int + 1),
            ) + rest),
            i == gs.len() ==> final(self).stream() == rest,
    {
        let ghost s = self.stream();
        proof {
            let t = gs.skip(i as int);
            if i < gs.len() {
                assert(t.drop_first() =~= gs.skip(i as int + 1));
                assert(t[0] == gs[i as int]);
                assert(s =~= seq![true] + (bits_of(ext, gs[i as int]) + (group_bits(ext, gs.skip(i as int + 1)) + rest)));
                reveal_with_fuel(bits_of, 2);
                assert(s.take(1) =~= bits_of(1, 1));
                lemma_value_bits(1, 1);
            } else {
                assert(t.len() == 0);
                assert(s =~= seq![false] + rest);
                reveal_with_fuel(bits_of, 2);
                assert(s.take(1) =~= bits_of(1, 0));
                lemma_value_bits(1, 0);
            }
            lemma_p2_values();
        }
        let b = self.decode_bits(1);
        proof {
            if i < gs.len() {
                assert(self.stream() =~= bits_of(ext, gs[i as int]) + (group_bits(ext, gs.skip(i as int + 1)) + rest));
            } else {
                assert(self.stream() =~= rest);
            }
        }
        b != 0
    }

    /// Reads a varint: a sign bit, 5 bits, then parts of 2 bits.
    pub fn decode_varint(&mut self) -> (r: i32)
        requires
            old(self).wf(),
            exists|sign: nat, low: nat, gs: Seq<nat>| #[trigger] readable_varint(old(self).stream(), 5, 2, sign, low, gs),
        ensures
            final(self).wf(),
            forall|sign: nat, low: nat, gs: Seq<nat>|
                #[trigger] readable_varint(old(self).stream(), 5, 2, sign, low, gs) ==> r == form_value(
                    5,
                    2,
                    sign,
                    low,
                    gs,
                ) && final(self).stream() == old(self).stream().skip(form_bits(5, 2, sign, low, gs).len() as int),
            forall|m: i32|
                #[trigger] starts_with_varint(old(self).stream(), 5, 2, m as int) ==> r == m && final(self).stream()
                    == old(self).stream().skip(varint_bits(5, 2, m as int).len() as int),
    {
        self.decode_varint_with(VARINT_BASE_BITS, VARINT_EXTENSION_BITS)
    }

    /// Checks the end of the text: the end marker, then only zeros, and no character left.
    pub fn finish(self)
        requires
            self.wf(),
            self.can_finish(),
    {
        let mut d = self;
        if d.num_buffered_bits == 0 {
            let c = d.input[d.pos];
            let (k, bits) = Base128Decoder::decode_char(c);
            d.buffered_bits = bits as u64;
            d.num_buffered_bits = k;
            d.pos = d.pos + 1;
            proof {
                lemma_value_bits(k as nat, bits as nat);
                vstd::arithmetic::div_mod::lemma_small_mod(bits as nat, p2(k as nat));
            }
        }
        let first = d.buffered_bits % 2;
        let rest_bits = d.buffered_bits / 2;
        proof {
            assert(first == 1);
            assert(rest_bits == 0);
            assert(d.pos == d.input@.len());
        }
    }

    /// Reads the next `n` bits, least significant first.
    pub fn decode_bits(&mut self, n: u32) -> (r: u32)
        requires
            old(self).wf(),
            n <= 32,
            old(self).stream().len() >= n,
        ensures
            final(self).wf(),
            r == value_of(old(self).stream().take(n as int)),
            final(self).stream() == old(self).stream().skip(n as int),
    {
        let ghost stream0 = self.stream();
        while self.num_buffered_bits < n
            invariant
                self.pos <= self.input@.len(),
                self.num_buffered_bits <= n + 14,
                n <= 32,
                self.buffered_bits < p2(self.num_buffered_bits as nat),
                self.stream() == stream0,
                stream0.len() >= n,
            decreases n + 14 - self.num_buffered_bits,
        {
            let ghost rest = self.rest();
            proof {
                lemma_bits_len(self.num_buffered_bits as nat, self.buffered_bits as nat);
                if rest.len() == 0 || char_groups(rest[0]) is None {
                    assert(front_groups(rest) =~= Seq::<u8>::empty());
                    assert(groups_stream(front_groups(rest)) =~= Seq::<bool>::empty());
                    assert(false);
                }
                assert(rest[0] == self.input@[self.pos as int]);
                assert(self.pos < self.input@.len());
            }
            let len = self.input.len();
            let c = self.input[self.pos];
            let (k, bits) = Base128Decoder::decode_char(c);
            let num = self.num_buffered_bits;
            let pw = pow2_u64(num);
            proof {
                lemma_p2_values();
                lemma_p2_mono(num as nat, 45);
                lemma_p2_mono(k as nat, 14);
                lemma_p2_add(num as nat, k as nat);
                lemma_p2_mono((num + k) as nat, 59);
                lemma_p2_add(45, 14);
                lemma_p2_add(32, 13);
                lemma_p2_add(14, 45);
                assert(self.buffered_bits + (bits as int) * (pw as int) < (pw as int) * p2(k as nat)) by (nonlinear_arith)
                    requires
                        self.buffered_bits < pw,
                        bits < p2(k as nat),
                ;
                assert((pw as int) * p2(k as nat) <= p2(59));
                lemma_p2_add(32, 27);
                lemma_p2_mono(27, 32);
                assert(p2(59) <= 0x1_0000_0000 * 0x1_0000_0000) by (nonlinear_arith)
                    requires
                        p2(59) == p2(32) * p2(27),
                        p2(27) <= p2(32),
                        p2(32) == 0x1_0000_0000,
                ;
                assert((bits as int) * (pw as int) == p2(num as nat) * bits) by (nonlinear_arith)
                    requires
                        pw == p2(num as nat),
                ;
                lemma_bits_concat(num as nat, k as nat, self.buffered_bits as nat, bits as nat);
                let g = char_groups(c)->0;
                assert(front_groups(rest) == g + front_groups(rest.skip(1)));
                lemma_groups_stream_concat(g, front_groups(rest.skip(1)));
                assert(rest.skip(1) =~= self.input@.subrange(self.pos + 1, self.input@.len() as int));
            }
            self.buffered_bits = self.buffered_bits + (bits as u64) * pw;
            self.num_buffered_bits = num + k;
            self.pos = self.pos + 1;
            proof {
                assert(self.stream() =~= stream0);
            }
        }
        let num = self.num_buffered_bits;
        let pw = pow2_u64(n);
        proof {
            lemma_p2_pos(n as nat);
            lemma_bits_split(n as nat, (num - n) as nat, self.buffered_bits as nat);
            lemma_value_bits(n as nat, self.buffered_bits as nat % p2(n as nat));
            lemma_bits_len(n as nat, self.buffered_bits as nat % p2(n as nat));
            lemma_p2_add(n as nat, (num - n) as nat);
            assert(self.buffered_bits as nat / p2(n as nat) < p2((num - n) as nat)) by (nonlinear_arith)
                requires
                    self.buffered_bits < p2(n as nat) * p2((num - n) as nat),
                    p2(n as nat) >= 1,
            ;
            lemma_p2_mono(n as nat, 32);
            lemma_p2_values();
            lemma_p2_mono((num - n) as nat, 14);
        }
        let res = (self.buffered_bits % pw) as u32;
        self.buffered_bits = self.buffered_bits / pw;
        self.num_buffered_bits = num - n;
        proof {
            assert(stream0.take(n as int) =~= bits_of(n as nat, (res as nat)));
            lemma_value_bits(n as nat, res as nat);
            vstd::arithmetic::div_mod::lemma_small_mod(res as nat, p2(n as nat));
            assert(self.stream() =~= stream0.skip(n as int));
        }
        res
    }
}

} // verus!
