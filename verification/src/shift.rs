//! Shifts that are defined for every shift count.

use vstd::prelude::*;
use vstd::arithmetic::div_mod::lemma_small_mod;
use crate::model::{shift_left, shift_right, lemma_shift_left_saturates, lemma_shift_right_saturates};
use crate::word::{
    Word,
    lemma_u8_shl,
    lemma_u16_shl,
    lemma_u32_shl,
    lemma_u64_shl,
    lemma_u128_shl,
    lemma_usize_shl,
};

verus! {

/// A type with an overflowing left shift, and a saturating one built on it.
pub trait OverflowingShl: Word {
    /// Shifts left by `n mod width()` places, and says whether `n` had to be
    /// reduced, that is whether `n` is at least the width.
    fn overflowing_shl(self, n: u32) -> (r: (Self, bool))
        ensures
            r.0.as_nat() == shift_left(Self::width(), self.as_nat(), n as nat % Self::width()),
            r.1 == (n >= Self::width()),
    ;

    /// Shifts left by `n` places. What is shifted past the top is lost, so a
    /// shift by the width or more gives zero.
    fn saturating_shl(self, n: u32) -> (r: Self)
        ensures
            r.as_nat() == shift_left(Self::width(), self.as_nat(), n as nat),
            n >= Self::width() ==> r.as_nat() == 0,
    {
        proof {
            Self::lemma_width_positive();
            if n >= Self::width() {
                lemma_shift_left_saturates(Self::width(), self.as_nat(), n as nat);
            } else {
                lemma_small_mod(n as nat, Self::width());
            }
        }
        match self.overflowing_shl(n) {
            (_, true) => Self::zero(),
            (x, _) => x,
        }
    }
}

/// A type with an overflowing right shift, and a saturating one built on it.
pub trait OverflowingShr: Word {
    /// Shifts right by `n mod width()` places, and says whether `n` had to be
    /// reduced, that is whether `n` is at least the width.
    fn overflowing_shr(self, n: u32) -> (r: (Self, bool))
        ensures
            r.0.as_nat() == shift_right(self.as_nat(), n as nat % Self::width()),
            r.1 == (n >= Self::width()),
    ;

    /// Shifts right by `n` places. A shift by the width or more gives zero.
    fn saturating_shr(self, n: u32) -> (r: Self)
        ensures
            r.as_nat() == shift_right(self.as_nat(), n as nat),
            n >= Self::width() ==> r.as_nat() == 0,
    {
        proof {
            Self::lemma_width_positive();
            self.lemma_as_nat_bounded();
            if n >= Self::width() {
                lemma_shift_right_saturates(Self::width(), self.as_nat(), n as nat);
            } else {
                lemma_small_mod(n as nat, Self::width());
            }
        }
        match self.overflowing_shr(n) {
            (_, true) => Self::zero(),
            (x, _) => x,
        }
    }
}

impl OverflowingShl for u8 {
    fn overflowing_shl(self, n: u32) -> (r: (Self, bool)) {
        proof {
            lemma_u8_shl(self, (n % u8::BITS) as u8);
        }
        (self.wrapping_shl(n), n >= u8::BITS)
    }
}

impl OverflowingShr for u8 {
    fn overflowing_shr(self, n: u32) -> (r: (Self, bool)) {
        proof {
            vstd::bits::lemma_u8_shr_is_div(self, (n % u8::BITS) as u8);
        }
        (self.wrapping_shr(n), n >= u8::BITS)
    }
}

impl OverflowingShl for u16 {
    fn overflowing_shl(self, n: u32) -> (r: (Self, bool)) {
        proof {
            lemma_u16_shl(self, (n % u16::BITS) as u16);
        }
        (self.wrapping_shl(n), n >= u16::BITS)
    }
}

impl OverflowingShr for u16 {
    fn overflowing_shr(self, n: u32) -> (r: (Self, bool)) {
        proof {
            vstd::bits::lemma_u16_shr_is_div(self, (n % u16::BITS) as u16);
        }
        (self.wrapping_shr(n), n >= u16::BITS)
    }
}

impl OverflowingShl for u32 {
    fn overflowing_shl(self, n: u32) -> (r: (Self, bool)) {
        proof {
            lemma_u32_shl(self, (n % u32::BITS) as u32);
        }
        (self.wrapping_shl(n), n >= u32::BITS)
    }
}

impl OverflowingShr for u32 {
    fn overflowing_shr(self, n: u32) -> (r: (Self, bool)) {
        proof {
            vstd::bits::lemma_u32_shr_is_div(self, (n % u32::BITS) as u32);
        }
        (self.wrapping_shr(n), n >= u32::BITS)
    }
}

impl OverflowingShl for u64 {
    fn overflowing_shl(self, n: u32) -> (r: (Self, bool)) {
        proof {
            lemma_u64_shl(self, (n % u64::BITS) as u64);
        }
        (self.wrapping_shl(n), n >= u64::BITS)
    }
}

impl OverflowingShr for u64 {
    fn overflowing_shr(self, n: u32) -> (r: (Self, bool)) {
        proof {
            vstd::bits::lemma_u64_shr_is_div(self, (n % u64::BITS) as u64);
        }
        (self.wrapping_shr(n), n >= u64::BITS)
    }
}

impl OverflowingShl for u128 {
    fn overflowing_shl(self, n: u32) -> (r: (Self, bool)) {
        proof {
            lemma_u128_shl(self, (n % u128::BITS) as u128);
        }
        (self.wrapping_shl(n), n >= u128::BITS)
    }
}

impl OverflowingShr for u128 {
    fn overflowing_shr(self, n: u32) -> (r: (Self, bool)) {
        proof {
            vstd::bits::lemma_u128_shr_is_div(self, (n % u128::BITS) as u128);
        }
        (self.wrapping_shr(n), n >= u128::BITS)
    }
}

impl OverflowingShl for usize {
    fn overflowing_shl(self, n: u32) -> (r: (Self, bool)) {
        proof {
            lemma_usize_shl(self, (n % usize::BITS) as usize);
        }
        (self.wrapping_shl(n), n >= usize::BITS)
    }
}

impl OverflowingShr for usize {
    fn overflowing_shr(self, n: u32) -> (r: (Self, bool)) {
        proof {
            vstd::bits::lemma_usize_shr_is_div(self, (n % usize::BITS) as usize);
        }
        (self.wrapping_shr(n), n >= usize::BITS)
    }
}

} // verus!
