//! Fixed-width unsigned values and the bitwise operations on them.

use vstd::prelude::*;
use vstd::arithmetic::power2::{pow2, lemma2_to64, lemma2_to64_rest};
use crate::model::{bit_at, shift_left, lemma_bit_beyond, lemma_shift_left_by_bits};

verus! {

/// A fixed-width unsigned value: a number below `2^width()`, with the bitwise
/// operations that the accessors are built from.
pub trait Word: Copy + Sized {
    /// The number of bits in a value of this type.
    spec fn width() -> nat;

    /// The number that the value stands for.
    spec fn as_nat(self) -> nat;

    /// A type has at least one bit.
    proof fn lemma_width_positive()
        ensures
            0 < Self::width(),
    ;

    /// A value fits in `width()` bits.
    proof fn lemma_as_nat_bounded(self)
        ensures
            self.as_nat() < pow2(Self::width()),
    ;

    /// The value that stands for `n`, for `n` below `2^width()`.
    spec fn from_nat(n: nat) -> Self;

    /// `from_nat` undoes `as_nat`, and `as_nat` undoes `from_nat` on the
    /// numbers that fit.
    proof fn lemma_from_nat(n: nat)
        requires
            n < pow2(Self::width()),
        ensures
            Self::from_nat(n).as_nat() == n,
    ;

    /// Two values that stand for the same number are the same value.
    proof fn lemma_as_nat_injective(self, other: Self)
        requires
            self.as_nat() == other.as_nat(),
        ensures
            self == other,
    ;

    /// The value with no bit set.
    fn zero() -> (r: Self)
        ensures
            r.as_nat() == 0,
    ;

    /// The value 1 for `true`, 0 for `false`.
    fn from_bool(b: bool) -> (r: Self)
        ensures
            r.as_nat() == if b { 1nat } else { 0nat },
    ;

    /// Whether the two values are the same.
    fn equals(self, other: Self) -> (r: bool)
        ensures
            r == (self == other),
    ;

    /// The number of bits in a value of this type.
    fn bit_count() -> (r: u32)
        ensures
            r == Self::width(),
    ;

    /// Every bit inverted.
    fn bit_not(self) -> (r: Self)
        ensures
            forall|i: nat| i < Self::width() ==> #[trigger] bit_at(r.as_nat(), i) == !bit_at(self.as_nat(), i),
    ;

    /// The bits that are set in both values.
    fn bit_and(self, rhs: Self) -> (r: Self)
        ensures
            forall|i: nat| #[trigger] bit_at(r.as_nat(), i) == (bit_at(self.as_nat(), i) && bit_at(rhs.as_nat(), i)),
    ;

    /// The bits that are set in either value.
    fn bit_or(self, rhs: Self) -> (r: Self)
        ensures
            forall|i: nat| #[trigger] bit_at(r.as_nat(), i) == (bit_at(self.as_nat(), i) || bit_at(rhs.as_nat(), i)),
    ;

    /// The value shifted left by `n` places, for `n` below the width.
    fn shl(self, n: u8) -> (r: Self)
        requires
            n < Self::width(),
        ensures
            r.as_nat() == shift_left(Self::width(), self.as_nat(), n as nat),
    ;
}

/// How the bitwise operations of `u8` act on the bit at position `k`.
proof fn lemma_u8_bitwise(x: u8, y: u8, n: u8, k: u8)
    by (bit_vector)
    requires
        k < 8,
    ensures
        ((x >> k) & 1 == 1) == ((x >> k) % 2 == 1),
        ((!x >> k) & 1 == 1) == !((x >> k) & 1 == 1),
        (((x & y) >> k) & 1 == 1) == (((x >> k) & 1 == 1) && ((y >> k) & 1 == 1)),
        (((x | y) >> k) & 1 == 1) == (((x >> k) & 1 == 1) || ((y >> k) & 1 == 1)),
        n < 8 ==> ((((x << n) >> k) & 1 == 1) == (n <= k && ((x >> ((k - n) as u8)) & 1 == 1))),
{
}

/// Bit `i` of `x`, read with a shift and a mask.
proof fn lemma_u8_bit(x: u8, i: nat)
    ensures
        bit_at(x as nat, i) == (i < 8 && ((x >> (i as u8)) & 1 == 1)),
{
    x.lemma_as_nat_bounded();
    if i < 8 {
        let k = i as u8;
        vstd::bits::lemma_u8_shr_is_div(x, k);
        lemma_u8_bitwise(x, 0, 0, k);
    } else {
        lemma_bit_beyond(x as nat, 8, i);
    }
}

/// A left shift of a `u8` by less than its width, as a number.
pub proof fn lemma_u8_shl(x: u8, n: u8)
    requires
        n < 8,
    ensures
        (x << n) as nat == shift_left(8, x as nat, n as nat),
{
    let r = x << n;
    r.lemma_as_nat_bounded();
    assert forall|i: nat| i < 8 implies bit_at(r as nat, i) == (n as nat <= i && bit_at(
        x as nat,
        (i - n as nat) as nat,
    )) by {
        lemma_u8_bit(r, i);
        lemma_u8_bit(x, (i - n as nat) as nat);
        lemma_u8_bitwise(x, 0, n, i as u8);
    }
    lemma_shift_left_by_bits(8, x as nat, n as nat, r as nat);
}

impl Word for u8 {
    open spec fn width() -> nat {
        8
    }

    open spec fn as_nat(self) -> nat {
        self as nat
    }

    proof fn lemma_width_positive() {
    }

    proof fn lemma_as_nat_bounded(self) {
        lemma2_to64();
        lemma2_to64_rest();
    }

    open spec fn from_nat(n: nat) -> Self {
        n as u8
    }

    proof fn lemma_from_nat(n: nat) {
        lemma2_to64();
        lemma2_to64_rest();
    }

    proof fn lemma_as_nat_injective(self, other: Self) {
    }

    fn zero() -> (r: Self) {
        0
    }

    fn from_bool(b: bool) -> (r: Self) {
        if b {
            1
        } else {
            0
        }
    }

    fn equals(self, other: Self) -> (r: bool) {
        self == other
    }

    fn bit_count() -> (r: u32) {
        u8::BITS
    }

    fn bit_not(self) -> (r: Self) {
        let r = !self;
        proof {
            assert forall|i: nat| i < Self::width() implies #[trigger] bit_at(r as nat, i) == !bit_at(
                self as nat,
                i,
            ) by {
                lemma_u8_bit(r, i);
                lemma_u8_bit(self, i);
                lemma_u8_bitwise(self, 0, 0, i as u8);
            }
        }
        r
    }

    fn bit_and(self, rhs: Self) -> (r: Self) {
        let r = self & rhs;
        proof {
            assert forall|i: nat| #[trigger] bit_at(r as nat, i) == (bit_at(self as nat, i) && bit_at(
                rhs as nat,
                i,
            )) by {
                lemma_u8_bit(r, i);
                lemma_u8_bit(self, i);
                lemma_u8_bit(rhs, i);
                if i < 8 {
                    lemma_u8_bitwise(self, rhs, 0, i as u8);
                }
            }
        }
        r
    }

    fn bit_or(self, rhs: Self) -> (r: Self) {
        let r = self | rhs;
        proof {
            assert forall|i: nat| #[trigger] bit_at(r as nat, i) == (bit_at(self as nat, i) || bit_at(
                rhs as nat,
                i,
            )) by {
                lemma_u8_bit(r, i);
                lemma_u8_bit(self, i);
                lemma_u8_bit(rhs, i);
                if i < 8 {
                    lemma_u8_bitwise(self, rhs, 0, i as u8);
                }
            }
        }
        r
    }

    fn shl(self, n: u8) -> (r: Self) {
        proof {
            lemma_u8_shl(self, n);
        }
        self << n
    }
}

/// How the bitwise operations of `u16` act on the bit at position `k`.
proof fn lemma_u16_bitwise(x: u16, y: u16, n: u16, k: u16)
    by (bit_vector)
    requires
        k < 16,
    ensures
        ((x >> k) & 1 == 1) == ((x >> k) % 2 == 1),
        ((!x >> k) & 1 == 1) == !((x >> k) & 1 == 1),
        (((x & y) >> k) & 1 == 1) == (((x >> k) & 1 == 1) && ((y >> k) & 1 == 1)),
        (((x | y) >> k) & 1 == 1) == (((x >> k) & 1 == 1) || ((y >> k) & 1 == 1)),
        n < 16 ==> ((((x << n) >> k) & 1 == 1) == (n <= k && ((x >> ((k - n) as u16)) & 1 == 1))),
{
}

/// Bit `i` of `x`, read with a shift and a mask.
proof fn lemma_u16_bit(x: u16, i: nat)
    ensures
        bit_at(x as nat, i) == (i < 16 && ((x >> (i as u16)) & 1 == 1)),
{
    x.lemma_as_nat_bounded();
    if i < 16 {
        let k = i as u16;
        vstd::bits::lemma_u16_shr_is_div(x, k);
        lemma_u16_bitwise(x, 0, 0, k);
    } else {
        lemma_bit_beyond(x as nat, 16, i);
    }
}

/// A left shift of a `u16` by less than its width, as a number.
pub proof fn lemma_u16_shl(x: u16, n: u16)
    requires
        n < 16,
    ensures
        (x << n) as nat == shift_left(16, x as nat, n as nat),
{
    let r = x << n;
    r.lemma_as_nat_bounded();
    assert forall|i: nat| i < 16 implies bit_at(r as nat, i) == (n as nat <= i && bit_at(
        x as nat,
        (i - n as nat) as nat,
    )) by {
        lemma_u16_bit(r, i);
        lemma_u16_bit(x, (i - n as nat) as nat);
        lemma_u16_bitwise(x, 0, n, i as u16);
    }
    lemma_shift_left_by_bits(16, x as nat, n as nat, r as nat);
}

impl Word for u16 {
    open spec fn width() -> nat {
        16
    }

    open spec fn as_nat(self) -> nat {
        self as nat
    }

    proof fn lemma_width_positive() {
    }

    proof fn lemma_as_nat_bounded(self) {
        lemma2_to64();
        lemma2_to64_rest();
    }

    open spec fn from_nat(n: nat) -> Self {
        n as u16
    }

    proof fn lemma_from_nat(n: nat) {
        lemma2_to64();
        lemma2_to64_rest();
    }

    proof fn lemma_as_nat_injective(self, other: Self) {
    }

    fn zero() -> (r: Self) {
        0
    }

    fn from_bool(b: bool) -> (r: Self) {
        if b {
            1
        } else {
            0
        }
    }

    fn equals(self, other: Self) -> (r: bool) {
        self == other
    }

    fn bit_count() -> (r: u32) {
        u16::BITS
    }

    fn bit_not(self) -> (r: Self) {
        let r = !self;
        proof {
            assert forall|i: nat| i < Self::width() implies #[trigger] bit_at(r as nat, i) == !bit_at(
                self as nat,
                i,
            ) by {
                lemma_u16_bit(r, i);
                lemma_u16_bit(self, i);
                lemma_u16_bitwise(self, 0, 0, i as u16);
            }
        }
        r
    }

    fn bit_and(self, rhs: Self) -> (r: Self) {
        let r = self & rhs;
        proof {
            assert forall|i: nat| #[trigger] bit_at(r as nat, i) == (bit_at(self as nat, i) && bit_at(
                rhs as nat,
                i,
            )) by {
                lemma_u16_bit(r, i);
                lemma_u16_bit(self, i);
                lemma_u16_bit(rhs, i);
                if i < 16 {
                    lemma_u16_bitwise(self, rhs, 0, i as u16);
                }
            }
        }
        r
    }

    fn bit_or(self, rhs: Self) -> (r: Self) {
        let r = self | rhs;
        proof {
            assert forall|i: nat| #[trigger] bit_at(r as nat, i) == (bit_at(self as nat, i) || bit_at(
                rhs as nat,
                i,
            )) by {
                lemma_u16_bit(r, i);
                lemma_u16_bit(self, i);
                lemma_u16_bit(rhs, i);
                if i < 16 {
                    lemma_u16_bitwise(self, rhs, 0, i as u16);
                }
            }
        }
        r
    }

    fn shl(self, n: u8) -> (r: Self) {
        proof {
            lemma_u16_shl(self, n as u16);
        }
        self << n
    }
}

/// How the bitwise operations of `u32` act on the bit at position `k`.
proof fn lemma_u32_bitwise(x: u32, y: u32, n: u32, k: u32)
    by (bit_vector)
    requires
        k < 32,
    ensures
        ((x >> k) & 1 == 1) == ((x >> k) % 2 == 1),
        ((!x >> k) & 1 == 1) == !((x >> k) & 1 == 1),
        (((x & y) >> k) & 1 == 1) == (((x >> k) & 1 == 1) && ((y >> k) & 1 == 1)),
        (((x | y) >> k) & 1 == 1) == (((x >> k) & 1 == 1) || ((y >> k) & 1 == 1)),
        n < 32 ==> ((((x << n) >> k) & 1 == 1) == (n <= k && ((x >> ((k - n) as u32)) & 1 == 1))),
{
}

/// Bit `i` of `x`, read with a shift and a mask.
proof fn lemma_u32_bit(x: u32, i: nat)
    ensures
        bit_at(x as nat, i) == (i < 32 && ((x >> (i as u32)) & 1 == 1)),
{
    x.lemma_as_nat_bounded();
    if i < 32 {
        let k = i as u32;
        vstd::bits::lemma_u32_shr_is_div(x, k);
        lemma_u32_bitwise(x, 0, 0, k);
    } else {
        lemma_bit_beyond(x as nat, 32, i);
    }
}

/// A left shift of a `u32` by less than its width, as a number.
pub proof fn lemma_u32_shl(x: u32, n: u32)
    requires
        n < 32,
    ensures
        (x << n) as nat == shift_left(32, x as nat, n as nat),
{
    let r = x << n;
    r.lemma_as_nat_bounded();
    assert forall|i: nat| i < 32 implies bit_at(r as nat, i) == (n as nat <= i && bit_at(
        x as nat,
        (i - n as nat) as nat,
    )) by {
        lemma_u32_bit(r, i);
        lemma_u32_bit(x, (i - n as nat) as nat);
        lemma_u32_bitwise(x, 0, n, i as u32);
    }
    lemma_shift_left_by_bits(32, x as nat, n as nat, r as nat);
}

impl Word for u32 {
    open spec fn width() -> nat {
        32
    }

    open spec fn as_nat(self) -> nat {
        self as nat
    }

    proof fn lemma_width_positive() {
    }

    proof fn lemma_as_nat_bounded(self) {
        lemma2_to64();
        lemma2_to64_rest();
    }

    open spec fn from_nat(n: nat) -> Self {
        n as u32
    }

    proof fn lemma_from_nat(n: nat) {
        lemma2_to64();
        lemma2_to64_rest();
    }

    proof fn lemma_as_nat_injective(self, other: Self) {
    }

    fn zero() -> (r: Self) {
        0
    }

    fn from_bool(b: bool) -> (r: Self) {
        if b {
            1
        } else {
            0
        }
    }

    fn equals(self, other: Self) -> (r: bool) {
        self == other
    }

    fn bit_count() -> (r: u32) {
        u32::BITS
    }

    fn bit_not(self) -> (r: Self) {
        let r = !self;
        proof {
            assert forall|i: nat| i < Self::width() implies #[trigger] bit_at(r as nat, i) == !bit_at(
                self as nat,
                i,
            ) by {
                lemma_u32_bit(r, i);
                lemma_u32_bit(self, i);
                lemma_u32_bitwise(self, 0, 0, i as u32);
            }
        }
        r
    }

    fn bit_and(self, rhs: Self) -> (r: Self) {
        let r = self & rhs;
        proof {
            assert forall|i: nat| #[trigger] bit_at(r as nat, i) == (bit_at(self as nat, i) && bit_at(
                rhs as nat,
                i,
            )) by {
                lemma_u32_bit(r, i);
                lemma_u32_bit(self, i);
                lemma_u32_bit(rhs, i);
                if i < 32 {
                    lemma_u32_bitwise(self, rhs, 0, i as u32);
                }
            }
        }
        r
    }

    fn bit_or(self, rhs: Self) -> (r: Self) {
        let r = self | rhs;
        proof {
            assert forall|i: nat| #[trigger] bit_at(r as nat, i) == (bit_at(self as nat, i) || bit_at(
                rhs as nat,
                i,
            )) by {
                lemma_u32_bit(r, i);
                lemma_u32_bit(self, i);
                lemma_u32_bit(rhs, i);
                if i < 32 {
                    lemma_u32_bitwise(self, rhs, 0, i as u32);
                }
            }
        }
        r
    }

    fn shl(self, n: u8) -> (r: Self) {
        proof {
            lemma_u32_shl(self, n as u32);
        }
        self << n
    }
}

/// How the bitwise operations of `u64` act on the bit at position `k`.
proof fn lemma_u64_bitwise(x: u64, y: u64, n: u64, k: u64)
    by (bit_vector)
    requires
        k < 64,
    ensures
        ((x >> k) & 1 == 1) == ((x >> k) % 2 == 1),
        ((!x >> k) & 1 == 1) == !((x >> k) & 1 == 1),
        (((x & y) >> k) & 1 == 1) == (((x >> k) & 1 == 1) && ((y >> k) & 1 == 1)),
        (((x | y) >> k) & 1 == 1) == (((x >> k) & 1 == 1) || ((y >> k) & 1 == 1)),
        n < 64 ==> ((((x << n) >> k) & 1 == 1) == (n <= k && ((x >> ((k - n) as u64)) & 1 == 1))),
{
}

/// Bit `i` of `x`, read with a shift and a mask.
proof fn lemma_u64_bit(x: u64, i: nat)
    ensures
        bit_at(x as nat, i) == (i < 64 && ((x >> (i as u64)) & 1 == 1)),
{
    x.lemma_as_nat_bounded();
    if i < 64 {
        let k = i as u64;
        vstd::bits::lemma_u64_shr_is_div(x, k);
        lemma_u64_bitwise(x, 0, 0, k);
    } else {
        lemma_bit_beyond(x as nat, 64, i);
    }
}

/// A left shift of a `u64` by less than its width, as a number.
pub proof fn lemma_u64_shl(x: u64, n: u64)
    requires
        n < 64,
    ensures
        (x << n) as nat == shift_left(64, x as nat, n as nat),
{
    let r = x << n;
    r.lemma_as_nat_bounded();
    assert forall|i: nat| i < 64 implies bit_at(r as nat, i) == (n as nat <= i && bit_at(
        x as nat,
        (i - n as nat) as nat,
    )) by {
        lemma_u64_bit(r, i);
        lemma_u64_bit(x, (i - n as nat) as nat);
        lemma_u64_bitwise(x, 0, n, i as u64);
    }
    lemma_shift_left_by_bits(64, x as nat, n as nat, r as nat);
}

impl Word for u64 {
    open spec fn width() -> nat {
        64
    }

    open spec fn as_nat(self) -> nat {
        self as nat
    }

    proof fn lemma_width_positive() {
    }

    proof fn lemma_as_nat_bounded(self) {
        lemma2_to64();
        lemma2_to64_rest();
    }

    open spec fn from_nat(n: nat) -> Self {
        n as u64
    }

    proof fn lemma_from_nat(n: nat) {
        lemma2_to64();
        lemma2_to64_rest();
    }

    proof fn lemma_as_nat_injective(self, other: Self) {
    }

    fn zero() -> (r: Self) {
        0
    }

    fn from_bool(b: bool) -> (r: Self) {
        if b {
            1
        } else {
            0
        }
    }

    fn equals(self, other: Self) -> (r: bool) {
        self == other
    }

    fn bit_count() -> (r: u32) {
        u64::BITS
    }

    fn bit_not(self) -> (r: Self) {
        let r = !self;
        proof {
            assert forall|i: nat| i < Self::width() implies #[trigger] bit_at(r as nat, i) == !bit_at(
                self as nat,
                i,
            ) by {
                lemma_u64_bit(r, i);
                lemma_u64_bit(self, i);
                lemma_u64_bitwise(self, 0, 0, i as u64);
            }
        }
        r
    }

    fn bit_and(self, rhs: Self) -> (r: Self) {
        let r = self & rhs;
        proof {
            assert forall|i: nat| #[trigger] bit_at(r as nat, i) == (bit_at(self as nat, i) && bit_at(
                rhs as nat,
                i,
            )) by {
                lemma_u64_bit(r, i);
                lemma_u64_bit(self, i);
                lemma_u64_bit(rhs, i);
                if i < 64 {
                    lemma_u64_bitwise(self, rhs, 0, i as u64);
                }
            }
        }
        r
    }

    fn bit_or(self, rhs: Self) -> (r: Self) {
        let r = self | rhs;
        proof {
            assert forall|i: nat| #[trigger] bit_at(r as nat, i) == (bit_at(self as nat, i) || bit_at(
                rhs as nat,
                i,
            )) by {
                lemma_u64_bit(r, i);
                lemma_u64_bit(self, i);
                lemma_u64_bit(rhs, i);
                if i < 64 {
                    lemma_u64_bitwise(self, rhs, 0, i as u64);
                }
            }
        }
        r
    }

    fn shl(self, n: u8) -> (r: Self) {
        proof {
            lemma_u64_shl(self, n as u64);
        }
        self << n
    }
}

/// How the bitwise operations of `u128` act on the bit at position `k`.
proof fn lemma_u128_bitwise(x: u128, y: u128, n: u128, k: u128)
    by (bit_vector)
    requires
        k < 128,
    ensures
        ((x >> k) & 1 == 1) == ((x >> k) % 2 == 1),
        ((!x >> k) & 1 == 1) == !((x >> k) & 1 == 1),
        (((x & y) >> k) & 1 == 1) == (((x >> k) & 1 == 1) && ((y >> k) & 1 == 1)),
        (((x | y) >> k) & 1 == 1) == (((x >> k) & 1 == 1) || ((y >> k) & 1 == 1)),
        n < 128 ==> ((((x << n) >> k) & 1 == 1) == (n <= k && ((x >> ((k - n) as u128)) & 1 == 1))),
{
}

/// Bit `i` of `x`, read with a shift and a mask.
proof fn lemma_u128_bit(x: u128, i: nat)
    ensures
        bit_at(x as nat, i) == (i < 128 && ((x >> (i as u128)) & 1 == 1)),
{
    x.lemma_as_nat_bounded();
    if i < 128 {
        let k = i as u128;
        vstd::bits::lemma_u128_shr_is_div(x, k);
        lemma_u128_bitwise(x, 0, 0, k);
    } else {
        lemma_bit_beyond(x as nat, 128, i);
    }
}

/// A left shift of a `u128` by less than its width, as a number.
pub proof fn lemma_u128_shl(x: u128, n: u128)
    requires
        n < 128,
    ensures
        (x << n) as nat == shift_left(128, x as nat, n as nat),
{
    let r = x << n;
    r.lemma_as_nat_bounded();
    assert forall|i: nat| i < 128 implies bit_at(r as nat, i) == (n as nat <= i && bit_at(
        x as nat,
        (i - n as nat) as nat,
    )) by {
        lemma_u128_bit(r, i);
        lemma_u128_bit(x, (i - n as nat) as nat);
        lemma_u128_bitwise(x, 0, n, i as u128);
    }
    lemma_shift_left_by_bits(128, x as nat, n as nat, r as nat);
}

impl Word for u128 {
    open spec fn width() -> nat {
        128
    }

    open spec fn as_nat(self) -> nat {
        self as nat
    }

    proof fn lemma_width_positive() {
    }

    proof fn lemma_as_nat_bounded(self) {
        lemma2_to64();
        lemma2_to64_rest();
        vstd::arithmetic::power2::lemma_pow2_adds(64, 64);
        assert(pow2(128) == 0x1_0000_0000_0000_0000_0000_0000_0000_0000) by (nonlinear_arith)
            requires
                pow2(64) == 0x1_0000_0000_0000_0000,
                pow2(128) == pow2(64) * pow2(64),
        ;
    }

    open spec fn from_nat(n: nat) -> Self {
        n as u128
    }

    proof fn lemma_from_nat(n: nat) {
        lemma2_to64();
        lemma2_to64_rest();
        vstd::arithmetic::power2::lemma_pow2_adds(64, 64);
        assert(pow2(128) == 0x1_0000_0000_0000_0000_0000_0000_0000_0000) by (nonlinear_arith)
            requires
                pow2(64) == 0x1_0000_0000_0000_0000,
                pow2(128) == pow2(64) * pow2(64),
        ;
    }

    proof fn lemma_as_nat_injective(self, other: Self) {
    }

    fn zero() -> (r: Self) {
        0
    }

    fn from_bool(b: bool) -> (r: Self) {
        if b {
            1
        } else {
            0
        }
    }

    fn equals(self, other: Self) -> (r: bool) {
        self == other
    }

    fn bit_count() -> (r: u32) {
        u128::BITS
    }

    fn bit_not(self) -> (r: Self) {
        let r = !self;
        proof {
            assert forall|i: nat| i < Self::width() implies #[trigger] bit_at(r as nat, i) == !bit_at(
                self as nat,
                i,
            ) by {
                lemma_u128_bit(r, i);
                lemma_u128_bit(self, i);
                lemma_u128_bitwise(self, 0, 0, i as u128);
            }
        }
        r
    }

    fn bit_and(self, rhs: Self) -> (r: Self) {
        let r = self & rhs;
        proof {
            assert forall|i: nat| #[trigger] bit_at(r as nat, i) == (bit_at(self as nat, i) && bit_at(
                rhs as nat,
                i,
            )) by {
                lemma_u128_bit(r, i);
                lemma_u128_bit(self, i);
                lemma_u128_bit(rhs, i);
                if i < 128 {
                    lemma_u128_bitwise(self, rhs, 0, i as u128);
                }
            }
        }
        r
    }

    fn bit_or(self, rhs: Self) -> (r: Self) {
        let r = self | rhs;
        proof {
            assert forall|i: nat| #[trigger] bit_at(r as nat, i) == (bit_at(self as nat, i) || bit_at(
                rhs as nat,
                i,
            )) by {
                lemma_u128_bit(r, i);
                lemma_u128_bit(self, i);
                lemma_u128_bit(rhs, i);
                if i < 128 {
                    lemma_u128_bitwise(self, rhs, 0, i as u128);
                }
            }
        }
        r
    }

    fn shl(self, n: u8) -> (r: Self) {
        proof {
            lemma_u128_shl(self, n as u128);
        }
        self << n
    }
}

/// How the bitwise operations of `usize` act on the bit at position `k`.
proof fn lemma_usize_bitwise(x: usize, y: usize, n: usize, k: usize)
    by (bit_vector)
    requires
        k < usize::BITS,
    ensures
        ((x >> k) & 1 == 1) == ((x >> k) % 2 == 1),
        ((!x >> k) & 1 == 1) == !((x >> k) & 1 == 1),
        (((x & y) >> k) & 1 == 1) == (((x >> k) & 1 == 1) && ((y >> k) & 1 == 1)),
        (((x | y) >> k) & 1 == 1) == (((x >> k) & 1 == 1) || ((y >> k) & 1 == 1)),
        n < usize::BITS ==> ((((x << n) >> k) & 1 == 1) == (n <= k && ((x >> ((k - n) as usize)) & 1 == 1))),
{
}

/// Bit `i` of `x`, read with a shift and a mask.
proof fn lemma_usize_bit(x: usize, i: nat)
    ensures
        bit_at(x as nat, i) == (i < usize::BITS && ((x >> (i as usize)) & 1 == 1)),
{
    x.lemma_as_nat_bounded();
    if i < usize::BITS {
        let k = i as usize;
        vstd::bits::lemma_usize_shr_is_div(x, k);
        lemma_usize_bitwise(x, 0, 0, k);
    } else {
        lemma_bit_beyond(x as nat, usize::BITS as nat, i);
    }
}

/// A left shift of a `usize` by less than its width, as a number.
pub proof fn lemma_usize_shl(x: usize, n: usize)
    requires
        n < usize::BITS,
    ensures
        (x << n) as nat == shift_left(usize::BITS as nat, x as nat, n as nat),
{
    let r = x << n;
    r.lemma_as_nat_bounded();
    assert forall|i: nat| i < usize::BITS implies bit_at(r as nat, i) == (n as nat <= i && bit_at(
        x as nat,
        (i - n as nat) as nat,
    )) by {
        lemma_usize_bit(r, i);
        lemma_usize_bit(x, (i - n as nat) as nat);
        lemma_usize_bitwise(x, 0, n, i as usize);
    }
    lemma_shift_left_by_bits(usize::BITS as nat, x as nat, n as nat, r as nat);
}

impl Word for usize {
    open spec fn width() -> nat {
        usize::BITS as nat
    }

    open spec fn as_nat(self) -> nat {
        self as nat
    }

    proof fn lemma_width_positive() {
    }

    proof fn lemma_as_nat_bounded(self) {
        lemma2_to64();
        lemma2_to64_rest();
    }

    open spec fn from_nat(n: nat) -> Self {
        n as usize
    }

    proof fn lemma_from_nat(n: nat) {
        lemma2_to64();
        lemma2_to64_rest();
    }

    proof fn lemma_as_nat_injective(self, other: Self) {
    }

    fn zero() -> (r: Self) {
        0
    }

    fn from_bool(b: bool) -> (r: Self) {
        if b {
            1
        } else {
            0
        }
    }

    fn equals(self, other: Self) -> (r: bool) {
        self == other
    }

    fn bit_count() -> (r: u32) {
        usize::BITS
    }

    fn bit_not(self) -> (r: Self) {
        let r = !self;
        proof {
            assert forall|i: nat| i < Self::width() implies #[trigger] bit_at(r as nat, i) == !bit_at(
                self as nat,
                i,
            ) by {
                lemma_usize_bit(r, i);
                lemma_usize_bit(self, i);
                lemma_usize_bitwise(self, 0, 0, i as usize);
            }
        }
        r
    }

    fn bit_and(self, rhs: Self) -> (r: Self) {
        let r = self & rhs;
        proof {
            assert forall|i: nat| #[trigger] bit_at(r as nat, i) == (bit_at(self as nat, i) && bit_at(
                rhs as nat,
                i,
            )) by {
                lemma_usize_bit(r, i);
                lemma_usize_bit(self, i);
                lemma_usize_bit(rhs, i);
                if i < usize::BITS {
                    lemma_usize_bitwise(self, rhs, 0, i as usize);
                }
            }
        }
        r
    }

    fn bit_or(self, rhs: Self) -> (r: Self) {
        let r = self | rhs;
        proof {
            assert forall|i: nat| #[trigger] bit_at(r as nat, i) == (bit_at(self as nat, i) || bit_at(
                rhs as nat,
                i,
            )) by {
                lemma_usize_bit(r, i);
                lemma_usize_bit(self, i);
                lemma_usize_bit(rhs, i);
                if i < usize::BITS {
                    lemma_usize_bitwise(self, rhs, 0, i as usize);
                }
            }
        }
        r
    }

    fn shl(self, n: u8) -> (r: Self) {
        proof {
            lemma_usize_shl(self, n as usize);
        }
        self << n
    }
}

} // verus!
