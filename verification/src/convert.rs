//! Conversions between values of different widths: narrowing, which drops
//! the high bits, and widening, which keeps the number.

use vstd::prelude::*;
use vstd::arithmetic::power2::{pow2, lemma2_to64, lemma2_to64_rest};
use vstd::arithmetic::div_mod::lemma_small_mod;
use crate::word::Word;

verus! {

/// A value that can be cut down to the width of `T` by dropping its high bits.
pub trait TruncateInto<T: Word>: Word {
    /// The low `T::width()` bits of the value, that is the value modulo
    /// `2^T::width()`.
    fn truncate_into(self) -> (r: T)
        ensures
            r.as_nat() == self.as_nat() % pow2(T::width()),
    ;
}

/// A value that fits into `T` as it is.
pub trait WidenInto<T: Word>: Word {
    /// The same number, as a value of the wider type.
    fn widen_into(self) -> (r: T)
        ensures
            r.as_nat() == self.as_nat(),
    ;
}

/// Narrowing a `u128` keeps the value modulo two to the width of the target.
proof fn lemma_u128_low_bits(x: u128)
    by (bit_vector)
    ensures
        (x as u64) as u128 == x % 0x1_0000_0000_0000_0000,
        (x as u32) as u128 == x % 0x1_0000_0000,
        (x as u16) as u128 == x % 0x1_0000,
        (x as u8) as u128 == x % 0x100,
{
}

impl TruncateInto<u128> for u128 {
    fn truncate_into(self) -> (r: u128) {
        proof {
            self.lemma_as_nat_bounded();
            lemma_small_mod(self as nat, pow2(128));
        }
        self
    }
}

impl TruncateInto<u64> for u128 {
    fn truncate_into(self) -> (r: u64) {
        proof {
            lemma2_to64();
            lemma2_to64_rest();
            lemma_u128_low_bits(self);
        }
        #[verifier::truncate]
        (self as u64)
    }
}

impl TruncateInto<u32> for u128 {
    fn truncate_into(self) -> (r: u32) {
        proof {
            lemma2_to64();
            lemma2_to64_rest();
            lemma_u128_low_bits(self);
        }
        #[verifier::truncate]
        (self as u32)
    }
}

impl TruncateInto<u16> for u128 {
    fn truncate_into(self) -> (r: u16) {
        proof {
            lemma2_to64();
            lemma2_to64_rest();
            lemma_u128_low_bits(self);
        }
        #[verifier::truncate]
        (self as u16)
    }
}

impl TruncateInto<u8> for u128 {
    fn truncate_into(self) -> (r: u8) {
        proof {
            lemma2_to64();
            lemma2_to64_rest();
            lemma_u128_low_bits(self);
        }
        #[verifier::truncate]
        (self as u8)
    }
}

/// Narrowing a `u64` keeps the value modulo two to the width of the target.
proof fn lemma_u64_low_bits(x: u64)
    by (bit_vector)
    ensures
        (x as u32) as u64 == x % 0x1_0000_0000,
        (x as u16) as u64 == x % 0x1_0000,
        (x as u8) as u64 == x % 0x100,
{
}

impl TruncateInto<u64> for u64 {
    fn truncate_into(self) -> (r: u64) {
        proof {
            self.lemma_as_nat_bounded();
            lemma_small_mod(self as nat, pow2(64));
        }
        self
    }
}

impl TruncateInto<u32> for u64 {
    fn truncate_into(self) -> (r: u32) {
        proof {
            lemma2_to64();
            lemma2_to64_rest();
            lemma_u64_low_bits(self);
        }
        #[verifier::truncate]
        (self as u32)
    }
}

impl TruncateInto<u16> for u64 {
    fn truncate_into(self) -> (r: u16) {
        proof {
            lemma2_to64();
            lemma2_to64_rest();
            lemma_u64_low_bits(self);
        }
        #[verifier::truncate]
        (self as u16)
    }
}

impl TruncateInto<u8> for u64 {
    fn truncate_into(self) -> (r: u8) {
        proof {
            lemma2_to64();
            lemma2_to64_rest();
            lemma_u64_low_bits(self);
        }
        #[verifier::truncate]
        (self as u8)
    }
}

/// Narrowing a `u32` keeps the value modulo two to the width of the target.
proof fn lemma_u32_low_bits(x: u32)
    by (bit_vector)
    ensures
        (x as u16) as u32 == x % 0x1_0000,
        (x as u8) as u32 == x % 0x100,
{
}

impl TruncateInto<u32> for u32 {
    fn truncate_into(self) -> (r: u32) {
        proof {
            self.lemma_as_nat_bounded();
            lemma_small_mod(self as nat, pow2(32));
        }
        self
    }
}

impl TruncateInto<u16> for u32 {
    fn truncate_into(self) -> (r: u16) {
        proof {
            lemma2_to64();
            lemma2_to64_rest();
            lemma_u32_low_bits(self);
        }
        #[verifier::truncate]
        (self as u16)
    }
}

impl TruncateInto<u8> for u32 {
    fn truncate_into(self) -> (r: u8) {
        proof {
            lemma2_to64();
            lemma2_to64_rest();
            lemma_u32_low_bits(self);
        }
        #[verifier::truncate]
        (self as u8)
    }
}

/// Narrowing a `u16` keeps the value modulo two to the width of the target.
proof fn lemma_u16_low_bits(x: u16)
    by (bit_vector)
    ensures
        (x as u8) as u16 == x % 0x100,
{
}

impl TruncateInto<u16> for u16 {
    fn truncate_into(self) -> (r: u16) {
        proof {
            self.lemma_as_nat_bounded();
            lemma_small_mod(self as nat, pow2(16));
        }
        self
    }
}

impl TruncateInto<u8> for u16 {
    fn truncate_into(self) -> (r: u8) {
        proof {
            lemma2_to64();
            lemma2_to64_rest();
            lemma_u16_low_bits(self);
        }
        #[verifier::truncate]
        (self as u8)
    }
}

impl TruncateInto<u8> for u8 {
    fn truncate_into(self) -> (r: u8) {
        proof {
            self.lemma_as_nat_bounded();
            lemma_small_mod(self as nat, pow2(8));
        }
        self
    }
}

impl TruncateInto<usize> for usize {
    fn truncate_into(self) -> (r: usize) {
        proof {
            self.lemma_as_nat_bounded();
            lemma_small_mod(self as nat, pow2(usize::BITS as nat));
        }
        self
    }
}

impl TruncateInto<u64> for usize {
    fn truncate_into(self) -> (r: u64) {
        proof {
            lemma2_to64();
            lemma2_to64_rest();
            lemma_small_mod(self as nat, pow2(64));
        }
        self as u64
    }
}

impl TruncateInto<u32> for usize {
    fn truncate_into(self) -> (r: u32) {
        proof {
            lemma2_to64();
            lemma2_to64_rest();
            lemma_u64_low_bits(self as u64);
        }
        #[verifier::truncate]
        (self as u32)
    }
}

impl TruncateInto<u16> for usize {
    fn truncate_into(self) -> (r: u16) {
        proof {
            lemma2_to64();
            lemma2_to64_rest();
            lemma_u64_low_bits(self as u64);
        }
        #[verifier::truncate]
        (self as u16)
    }
}

impl TruncateInto<u8> for usize {
    fn truncate_into(self) -> (r: u8) {
        proof {
            lemma2_to64();
            lemma2_to64_rest();
            lemma_u64_low_bits(self as u64);
        }
        #[verifier::truncate]
        (self as u8)
    }
}

impl WidenInto<u8> for u8 {
    fn widen_into(self) -> (r: u8) {
        self
    }
}

impl WidenInto<u16> for u8 {
    fn widen_into(self) -> (r: u16) {
        self as u16
    }
}

impl WidenInto<u32> for u8 {
    fn widen_into(self) -> (r: u32) {
        self as u32
    }
}

impl WidenInto<u64> for u8 {
    fn widen_into(self) -> (r: u64) {
        self as u64
    }
}

impl WidenInto<u128> for u8 {
    fn widen_into(self) -> (r: u128) {
        self as u128
    }
}

impl WidenInto<usize> for u8 {
    fn widen_into(self) -> (r: usize) {
        self as usize
    }
}

impl WidenInto<u16> for u16 {
    fn widen_into(self) -> (r: u16) {
        self
    }
}

impl WidenInto<u32> for u16 {
    fn widen_into(self) -> (r: u32) {
        self as u32
    }
}

impl WidenInto<u64> for u16 {
    fn widen_into(self) -> (r: u64) {
        self as u64
    }
}

impl WidenInto<u128> for u16 {
    fn widen_into(self) -> (r: u128) {
        self as u128
    }
}

impl WidenInto<usize> for u16 {
    fn widen_into(self) -> (r: usize) {
        self as usize
    }
}

impl WidenInto<u32> for u32 {
    fn widen_into(self) -> (r: u32) {
        self
    }
}

impl WidenInto<u64> for u32 {
    fn widen_into(self) -> (r: u64) {
        self as u64
    }
}

impl WidenInto<u128> for u32 {
    fn widen_into(self) -> (r: u128) {
        self as u128
    }
}

impl WidenInto<u64> for u64 {
    fn widen_into(self) -> (r: u64) {
        self
    }
}

impl WidenInto<u128> for u64 {
    fn widen_into(self) -> (r: u128) {
        self as u128
    }
}

impl WidenInto<u128> for u128 {
    fn widen_into(self) -> (r: u128) {
        self
    }
}

impl WidenInto<usize> for usize {
    fn widen_into(self) -> (r: usize) {
        self
    }
}

} // verus!
