use crate::color::Color;
use crate::piece::ColoredPiece;
use crate::square::Square;
use vstd::prelude::*;

verus! {

/// The SplitMix64 finalizer: a fixed scrambling of 64-bit values.
pub open spec fn spec_mix64(x: u64) -> u64 {
    let z1 = x.wrapping_add(0x9E37_79B9_7F4A_7C15u64);
    let z2 = (z1 ^ (z1 >> 30u64)).wrapping_mul(0xBF58_476D_1CE4_E5B9u64);
    let z3 = (z2 ^ (z2 >> 27u64)).wrapping_mul(0x94D0_49BB_1331_11EBu64);
    z3 ^ (z3 >> 31u64)
}

pub fn mix64(x: u64) -> (r: u64)
    ensures
        r == spec_mix64(x),
{
    let z1 = x.wrapping_add(0x9E37_79B9_7F4A_7C15u64);
    let z2 = (z1 ^ (z1 >> 30u64)).wrapping_mul(0xBF58_476D_1CE4_E5B9u64);
    let z3 = (z2 ^ (z2 >> 27u64)).wrapping_mul(0x94D0_49BB_1331_11EBu64);
    z3 ^ (z3 >> 31u64)
}

/// Key of a colored piece standing on a square.
pub open spec fn spec_piece_square_key(cp: ColoredPiece, s: Square) -> u64 {
    spec_mix64((cp.spec_index() * 64 + s.spec_index() + 1) as u64)
}

/// Key of the `index`-th captured piece of a kind and color (index counts from 0).
pub open spec fn spec_captured_key(cp: ColoredPiece, index: nat) -> u64 {
    spec_mix64((1024 + cp.spec_index() * 32 + index) as u64)
}

/// Key of the side to move.
pub open spec fn spec_to_move_key(c: Color) -> u64 {
    spec_mix64((2048 + c.spec_index()) as u64)
}

pub fn piece_square(cp: ColoredPiece, s: Square) -> (r: u64)
    ensures
        r == spec_piece_square_key(cp, s),
{
    mix64((cp.index() * 64 + s.index() + 1) as u64)
}

pub fn captured(cp: ColoredPiece, index: usize) -> (r: u64)
    requires
        index < 32,
    ensures
        r == spec_captured_key(cp, index as nat),
{
    mix64((1024 + cp.index() * 32 + index) as u64)
}

pub fn to_move(c: Color) -> (r: u64)
    ensures
        r == spec_to_move_key(c),
{
    mix64((2048 + c.index()) as u64)
}

/// XOR can be regrouped and reordered.
pub proof fn lemma_xor3(a: u64, b: u64, c: u64)
    ensures
        (a ^ b) ^ c == (a ^ c) ^ b,
        (a ^ b) ^ b == a,
        a ^ 0u64 == a,
        (a ^ b) ^ c == a ^ (b ^ c),
{
    assert((a ^ b) ^ c == (a ^ c) ^ b) by (bit_vector);
    assert((a ^ b) ^ b == a) by (bit_vector);
    assert(a ^ 0u64 == a) by (bit_vector);
    assert((a ^ b) ^ c == a ^ (b ^ c)) by (bit_vector);
}

} // verus!
