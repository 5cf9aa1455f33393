//! A lossless encoding of `u64` values for stores whose widest integer is a
//! signed 64-bit integer: the top byte and the low 56 bits are kept apart.

use vstd::prelude::*;

verus! {

/// Two to the power of 56: the bound on the low part of a [`U64`].
pub open spec fn low_bound() -> int {
    0x100_0000_0000_0000
}

/// Compatibility type for the representation of a `u64` in BSON.
#[derive(Debug, PartialEq, Eq, Structural)]
pub struct U64 {
    hi: u8,
    lo: i64,
}

impl U64 {
    /// The low part lies in `0 .. 2^56`; every value built by `from` has this property.
    pub closed spec fn well_formed(self) -> bool {
        0 <= self.lo < low_bound()
    }

    /// The high byte of the encoding.
    pub closed spec fn spec_hi(self) -> u8 {
        self.hi
    }

    /// The low 56 bits of the encoding.
    pub closed spec fn spec_lo(self) -> i64 {
        self.lo
    }

    /// The number that the encoding stands for.
    pub open spec fn value(self) -> int {
        self.spec_hi() * low_bound() + self.spec_lo()
    }

    /// The high byte of the encoding.
    pub fn hi(&self) -> (r: u8)
        ensures
            r == self.spec_hi(),
    {
        self.hi
    }

    /// The low 56 bits of the encoding.
    pub fn lo(&self) -> (r: i64)
        ensures
            r == self.spec_lo(),
    {
        self.lo
    }
}

/// The encoding that `U64::from` computes.
pub closed spec fn encode(value: u64) -> U64 {
    U64 { hi: (value >> 56u64) as u8, lo: ((value << 8u64) >> 8u64) as i64 }
}

/// The decoding that `u64::from` computes.
pub closed spec fn decode(v: U64) -> u64 {
    ((v.hi as u64) << 56u64) | (v.lo as u64)
}

impl From<u64> for U64 {
    fn from(value: u64) -> (r: Self) {
        let hi: u8 = (value >> 56u64) as u8;
        let lo: i64 = ((value << 8u64) >> 8u64) as i64;
        assert(0 <= lo < 0x100_0000_0000_0000) by (bit_vector)
            requires
                lo == ((value << 8u64) >> 8u64) as i64,
        ;
        U64 { hi, lo }
    }
}

impl vstd::std_specs::convert::FromSpecImpl<u64> for U64 {
    open spec fn obeys_from_spec() -> bool {
        true
    }

    open spec fn from_spec(value: u64) -> Self {
        encode(value)
    }
}

impl From<U64> for u64 {
    fn from(v: U64) -> (r: u64) {
        ((v.hi as u64) << 56u64) | (v.lo as u64)
    }
}

impl vstd::std_specs::convert::FromSpecImpl<U64> for u64 {
    open spec fn obeys_from_spec() -> bool {
        true
    }

    open spec fn from_spec(v: U64) -> u64 {
        decode(v)
    }
}

/// Encoding splits a number into its top byte and its low 56 bits.
pub proof fn lemma_from_u64_parts(value: u64)
    ensures
        encode(value).spec_hi() == value / (low_bound() as u64),
        encode(value).spec_lo() == value % (low_bound() as u64),
        encode(value).value() == value,
        encode(value).well_formed(),
{
    let hi: u8 = (value >> 56u64) as u8;
    let lo: i64 = ((value << 8u64) >> 8u64) as i64;
    assert(hi == value / 0x100_0000_0000_0000u64 && lo == value % 0x100_0000_0000_0000u64) by (bit_vector)
        requires
            hi == (value >> 56u64) as u8,
            lo == ((value << 8u64) >> 8u64) as i64,
    ;
}

/// Decoding an encoded number gives the number back.
pub proof fn lemma_roundtrip(value: u64)
    ensures
        decode(encode(value)) == value,
{
    let hi: u8 = (value >> 56u64) as u8;
    let lo: i64 = ((value << 8u64) >> 8u64) as i64;
    assert((((hi as u64) << 56u64) | (lo as u64)) == value) by (bit_vector)
        requires
            hi == (value >> 56u64) as u8,
            lo == ((value << 8u64) >> 8u64) as i64,
    ;
}

/// Encoding a decoded value gives the value back, for every well-formed value.
pub proof fn lemma_roundtrip_encoded(v: U64)
    requires
        v.well_formed(),
    ensures
        encode(decode(v)) == v,
        decode(v) == v.value(),
{
    let hi = v.hi;
    let lo = v.lo;
    let n: u64 = ((hi as u64) << 56u64) | (lo as u64);
    assert(((n >> 56u64) as u8) == hi && (((n << 8u64) >> 8u64) as i64) == lo
        && n == hi * 0x100_0000_0000_0000u64 + lo) by (bit_vector)
        requires
            0 <= lo < 0x100_0000_0000_0000i64,
            n == ((hi as u64) << 56u64) | (lo as u64),
    ;
}

} // verus!
