use crate::base128::{
    form_bits, form_value, readable_varint, starts_with_varint, varint_bits, Base128Decoder as Decoder,
};
use vstd::prelude::*;

verus! {

/// Bits of the first part of a varint in this version of the format, after the sign bit.
pub const VARINT_BASE_BITS: u32 = 6;

/// Bits of each further part of a varint in this version of the format.
pub const VARINT_EXTENSION_BITS: u32 = 3;

/// Reads back bits from a base-128 text whose varints have a first part of 6 bits and
/// further parts of 3 bits.
pub struct Base128Decoder {
    inner: Decoder,
}

impl Base128Decoder {
    /// The bits that can still be read.
    pub closed spec fn stream(self) -> Seq<bool> {
        self.inner.stream()
    }

    pub closed spec fn wf(self) -> bool {
        self.inner.wf()
    }

    /// The decoder can check the end of the text.
    pub closed spec fn can_finish(self) -> bool {
        self.inner.can_finish()
    }

    /// A decoder of the text `s`.
    pub fn new(s: &str) -> (r: Base128Decoder)
        ensures
            r.wf(),
            r.stream() == crate::base128::groups_stream(crate::base128::front_groups(s@)),
    {
        Base128Decoder { inner: Decoder::new(s) }
    }

    /// Reads the next `n` bits, least significant first.
    pub fn decode_bits(&mut self, n: u32) -> (r: u32)
        requires
            old(self).wf(),
            n <= 32,
            old(self).stream().len() >= n,
        ensures
            final(self).wf(),
            r == crate::bits::value_of(old(self).stream().take(n as int)),
            final(self).stream() == old(self).stream().skip(n as int),
    {
        self.inner.decode_bits(n)
    }

    /// Reads a varint: a sign bit, 6 bits, then parts of 3 bits.
    pub fn decode_varint(&mut self) -> (r: i32)
        requires
            old(self).wf(),
            exists|sign: nat, low: nat, gs: Seq<nat>| #[trigger] readable_varint(old(self).stream(), 6, 3, sign, low, gs),
        ensures
            final(self).wf(),
            forall|sign: nat, low: nat, gs: Seq<nat>|
                #[trigger] readable_varint(old(self).stream(), 6, 3, sign, low, gs) ==> r == form_value(
                    6,
                    3,
                    sign,
                    low,
                    gs,
                ) && final(self).stream() == old(self).stream().skip(form_bits(6, 3, sign, low, gs).len() as int),
            forall|m: i32|
                #[trigger] starts_with_varint(old(self).stream(), 6, 3, m as int) ==> r == m && final(self).stream()
                    == old(self).stream().skip(varint_bits(6, 3, m as int).len() as int),
    {
        self.inner.decode_varint_with(VARINT_BASE_BITS, VARINT_EXTENSION_BITS)
    }

    /// Whether the decoder can finish now: the next bit is the end marker, followed only
    /// by zeros up to the end of the text.
    pub fn can_finish_now(&self) -> (r: bool)
        requires
            self.wf(),
        ensures
            r == self.can_finish(),
    {
        self.inner.can_finish_now()
    }

    /// Checks the end of the text: the end marker, then only zeros, and no character left.
    pub fn finish(self)
        requires
            self.wf(),
            self.can_finish(),
    {
        self.inner.finish()
    }
}

} // verus!
