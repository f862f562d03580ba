//! Reading and replacing single bits and ranges of bits.

use vstd::prelude::*;
use crate::model::{
    bit_at,
    extract,
    replace,
    lemma_bit_beyond,
    lemma_bit_of_extract,
    lemma_bit_of_one,
    lemma_bit_of_quotient,
    lemma_bit_of_replace,
    lemma_bit_of_shift_left,
    lemma_bit_of_zero,
    lemma_bits_determine,
    lemma_replace_bound,
    lemma_same_bits,
    lemma_zero_has_no_bits,
};
use crate::shift::{OverflowingShl, OverflowingShr};
use crate::word::Word;

verus! {

/// The number that a flag stands for: 1 when it is set, 0 when it is not.
pub open spec fn flag(b: bool) -> nat {
    if b {
        1
    } else {
        0
    }
}

/// Says whether bit `bit_num` of `val` is set. Bit 0 is the least significant
/// one; `bit_num` has to be a position inside the value.
pub fn get_bit<T: Word>(val: T, bit_num: u8) -> (r: bool)
    requires
        bit_num < T::width(),
    ensures
        r == bit_at(val.as_nat(), bit_num as nat),
{
    let position_mask = T::from_bool(true).shl(bit_num);
    let masked = val.bit_and(position_mask);
    let zero = T::zero();
    proof {
        let n = bit_num as nat;
        assert forall|i: nat| bit_at(position_mask.as_nat(), i) == (i == n) by {
            position_mask.lemma_as_nat_bounded();
            if i < T::width() {
                lemma_bit_of_shift_left(T::width(), 1, n, i);
                lemma_bit_of_one((i - n) as nat);
            } else {
                lemma_bit_beyond(position_mask.as_nat(), T::width(), i);
            }
        }
        lemma_zero_has_no_bits(masked.as_nat());
        if masked.as_nat() == 0 {
            masked.lemma_as_nat_injective(zero);
        }
        assert(bit_at(masked.as_nat(), n) == bit_at(val.as_nat(), n));
    }
    !masked.equals(zero)
}

/// A copy of `val` in which bit `bit_num` is `bit_val` and every other bit is
/// as before. `bit_num` has to be a position inside the value.
pub fn set_bit<T: Word>(val: T, bit_num: u8, bit_val: bool) -> (r: T)
    requires
        bit_num < T::width(),
    ensures
        r.as_nat() == replace(T::width(), val.as_nat(), bit_num as nat, bit_num as nat + 1, flag(bit_val)),
        forall|i: nat|
            i < T::width() ==> #[trigger] bit_at(r.as_nat(), i) == if i == bit_num {
                bit_val
            } else {
                bit_at(val.as_nat(), i)
            },
{
    let value_mask = T::from_bool(bit_val).shl(bit_num);
    let position_mask = T::from_bool(true).shl(bit_num);
    let cleared = val.bit_and(position_mask.bit_not());
    let r = cleared.bit_or(value_mask);
    proof {
        let n = bit_num as nat;
        let width = T::width();
        let target = replace(width, val.as_nat(), n, n + 1, flag(bit_val));
        val.lemma_as_nat_bounded();
        r.lemma_as_nat_bounded();
        lemma_replace_bound(width, val.as_nat(), n, n + 1, flag(bit_val));
        assert forall|i: nat| i < width implies #[trigger] bit_at(r.as_nat(), i) == if i == n {
            bit_val
        } else {
            bit_at(val.as_nat(), i)
        } by {
            lemma_bit_of_shift_left(width, 1, n, i);
            lemma_bit_of_shift_left(width, flag(bit_val), n, i);
            lemma_bit_of_one((i - n) as nat);
            lemma_bit_of_zero((i - n) as nat);
        }
        assert forall|i: nat| i < width implies bit_at(r.as_nat(), i) == bit_at(target, i) by {
            lemma_bit_of_replace(width, val.as_nat(), n, n + 1, flag(bit_val), i);
            lemma_bit_of_one(0);
            lemma_bit_of_zero(0);
        }
        lemma_bits_determine(r.as_nat(), target, width);
    }
    r
}

/// The bits `[lsb, msb)` of `packed_val`, moved down so that bit `lsb` becomes
/// bit 0 of the result; the bits above the range are zero. The range may reach
/// beyond the value: there is nothing but zeros there.
pub fn get_bits<T: OverflowingShl + OverflowingShr>(packed_val: T, lsb: u8, msb: u8) -> (r: T)
    requires
        lsb <= msb,
    ensures
        r.as_nat() == extract(packed_val.as_nat(), lsb as nat, msb as nat),
{
    let field_width = msb - lsb;
    let ones = T::zero().bit_not();
    let above = ones.saturating_shl(field_width.into());
    let field_width_mask = above.bit_not();
    let shifted = packed_val.saturating_shr(lsb.into());
    let r = shifted.bit_and(field_width_mask);
    proof {
        let width = T::width();
        let v = packed_val.as_nat();
        let target = extract(v, lsb as nat, msb as nat);
        assert forall|i: nat| bit_at(r.as_nat(), i) == bit_at(target, i) by {
            lemma_bit_of_extract(v, lsb as nat, msb as nat, i);
            lemma_bit_of_quotient(v, lsb as nat, i);
            if i < width {
                lemma_bit_of_shift_left(width, ones.as_nat(), field_width as nat, i);
                lemma_bit_of_zero((i - field_width) as nat);
            } else {
                packed_val.lemma_as_nat_bounded();
                field_width_mask.lemma_as_nat_bounded();
                lemma_bit_beyond(v, width, lsb as nat + i);
            }
        }
        lemma_same_bits(r.as_nat(), target);
    }
    r
}

/// A copy of `packed_val` in which the bits `[lsb, msb)` are the low bits of
/// `field_val` and every other bit is as before. Bits of `field_val` that do
/// not fit into the range are dropped. An empty or inverted range, or one that
/// starts beyond the value, changes nothing.
pub fn set_bits<T: OverflowingShl>(packed_val: T, lsb: u8, msb: u8, field_val: T) -> (r: T)
    ensures
        r.as_nat() == replace(
            T::width(),
            packed_val.as_nat(),
            lsb as nat,
            msb as nat,
            field_val.as_nat(),
        ),
{
    let ones = T::zero().bit_not();
    let msb_mask = ones.saturating_shl(msb.into());
    let lsb_mask = ones.saturating_shl(lsb.into()).bit_not();
    let position_mask = msb_mask.bit_or(lsb_mask);
    let value_mask = field_val.saturating_shl(lsb.into()).bit_and(position_mask.bit_not());
    let r = packed_val.bit_and(position_mask).bit_or(value_mask);
    proof {
        let width = T::width();
        let v = packed_val.as_nat();
        let f = field_val.as_nat();
        let target = replace(width, v, lsb as nat, msb as nat, f);
        packed_val.lemma_as_nat_bounded();
        r.lemma_as_nat_bounded();
        lemma_replace_bound(width, v, lsb as nat, msb as nat, f);
        assert forall|i: nat| i < width implies bit_at(r.as_nat(), i) == bit_at(target, i) by {
            lemma_bit_of_replace(width, v, lsb as nat, msb as nat, f, i);
            lemma_bit_of_shift_left(width, ones.as_nat(), msb as nat, i);
            lemma_bit_of_shift_left(width, ones.as_nat(), lsb as nat, i);
            lemma_bit_of_shift_left(width, f, lsb as nat, i);
            lemma_bit_of_zero((i - msb) as nat);
            lemma_bit_of_zero((i - lsb) as nat);
        }
        lemma_bits_determine(r.as_nat(), target, width);
    }
    r
}

} // verus!
