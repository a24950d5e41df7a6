use vstd::prelude::*;

verus! {

/// Bit pattern of the binary64 value `1.0`, used by the actions that mutate a
/// metric by one.
pub const ONE_BITS: u64 = 0x3ff0_0000_0000_0000;

/// Bit pattern of a canonical quiet NaN. It is the sentinel carried by the
/// parameterless actions, marking "no numeric argument supplied"; zero cannot
/// play that role because zero is a legitimate argument of `set`, `add` and
/// `observe`.
pub const NAN_BITS: u64 = 0x7ff8_0000_0000_0000;

/// A binary64 bit pattern denotes NaN exactly when every exponent bit is one
/// and the significand is not zero.
pub open spec fn spec_is_nan(bits: u64) -> bool {
    bits & 0x7ff0_0000_0000_0000 == 0x7ff0_0000_0000_0000 && bits & 0x000f_ffff_ffff_ffff != 0
}

/// The numeric argument of an operation, carried as the bit pattern of an
/// IEEE 754 binary64 value. Keeping the raw bits makes equality exact and lets
/// the NaN sentinel be recognised bit for bit, while the consumer that replays
/// the operation reinterprets the bits as a floating-point number.
#[derive(Clone, Copy, Debug, PartialEq, Eq, Structural)]
pub struct Value {
    pub bits: u64,
}

impl Value {
    /// Wrap a binary64 bit pattern.
    pub fn from_bits(bits: u64) -> (r: Value)
        ensures
            r.bits == bits,
    {
        Value { bits }
    }

    /// The wrapped bit pattern.
    pub fn to_bits(&self) -> (r: u64)
        ensures
            r == self.bits,
    {
        self.bits
    }

    /// The value `1.0`.
    pub fn one() -> (r: Value)
        ensures
            r.bits == ONE_BITS,
            !spec_is_nan(r.bits),
    {
        proof {
            assert(0x3ff0_0000_0000_0000u64 & 0x7ff0_0000_0000_0000 != 0x7ff0_0000_0000_0000)
                by (bit_vector);
        }
        Value { bits: ONE_BITS }
    }

    /// The NaN sentinel for "no numeric argument supplied".
    pub fn nan() -> (r: Value)
        ensures
            r.bits == NAN_BITS,
            spec_is_nan(r.bits),
    {
        proof {
            assert(0x7ff8_0000_0000_0000u64 & 0x7ff0_0000_0000_0000 == 0x7ff0_0000_0000_0000
                && 0x7ff8_0000_0000_0000u64 & 0x000f_ffff_ffff_ffff != 0) by (bit_vector);
        }
        Value { bits: NAN_BITS }
    }

    /// Whether the wrapped bit pattern denotes NaN.
    pub fn is_nan(&self) -> (r: bool)
        ensures
            r == spec_is_nan(self.bits),
    {
        self.bits & 0x7ff0_0000_0000_0000 == 0x7ff0_0000_0000_0000
            && self.bits & 0x000f_ffff_ffff_ffff != 0
    }
}

/// The NaN sentinel is never mistakable for a number: no NaN bit pattern is
/// the bit pattern of zero, of one, or of any other non-NaN value.
pub proof fn lemma_nan_sentinel_distinct(bits: u64)
    requires
        spec_is_nan(bits),
    ensures
        bits != 0,
        bits != ONE_BITS,
        spec_is_nan(NAN_BITS),
{
    assert((bits & 0x7ff0_0000_0000_0000 == 0x7ff0_0000_0000_0000
        && bits & 0x000f_ffff_ffff_ffff != 0) ==> (bits != 0 && bits != 0x3ff0_0000_0000_0000))
        by (bit_vector);
    assert(0x7ff8_0000_0000_0000u64 & 0x7ff0_0000_0000_0000 == 0x7ff0_0000_0000_0000
        && 0x7ff8_0000_0000_0000u64 & 0x000f_ffff_ffff_ffff != 0) by (bit_vector);
}

} // verus!
