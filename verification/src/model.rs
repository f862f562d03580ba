//! The mathematical model: a value is a natural number, and its bits are
//! read off by division by powers of two.

use vstd::prelude::*;
use vstd::arithmetic::power2::{
    pow2,
    lemma2_to64,
    lemma_pow2_adds,
    lemma_pow2_pos,
    lemma_pow2_strictly_increases,
};
use vstd::arithmetic::div_mod::{
    lemma_basic_div,
    lemma_div_denominator,
    lemma_fundamental_div_mod,
    lemma_fundamental_div_mod_converse,
    lemma_mod_bound,
    lemma_mod_multiples_vanish,
    lemma_small_mod,
};
use vstd::arithmetic::mul::lemma_mul_is_associative;

verus! {

/// Bit `i` of `v`, where bit 0 is the least significant one.
pub open spec fn bit_at(v: nat, i: nat) -> bool {
    (v / pow2(i)) % 2 == 1
}

/// The bits `[lsb, msb)` of `v`, moved down so that bit `lsb` becomes bit 0.
/// An empty or inverted range holds nothing, so its value is 0.
pub open spec fn extract(v: nat, lsb: nat, msb: nat) -> nat {
    if lsb < msb {
        (v / pow2(lsb)) % pow2((msb - lsb) as nat)
    } else {
        0
    }
}

/// The upper end of the range `[lsb, msb)` once it is cut off at `width` bits,
/// and never below `lsb`.
pub open spec fn clip(width: nat, lsb: nat, msb: nat) -> nat {
    if msb <= lsb {
        lsb
    } else if msb <= width {
        msb
    } else if lsb <= width {
        width
    } else {
        lsb
    }
}

/// `v`, a value of `width` bits, with the bits `[lsb, msb)` replaced by the low
/// bits of `field`: the bits below `lsb` are kept, then come the bits of
/// `field`, then the bits of `v` from `msb` upwards.
pub open spec fn replace(width: nat, v: nat, lsb: nat, msb: nat, field: nat) -> nat {
    let top = clip(width, lsb, msb);
    if lsb < top {
        extract(v, 0, lsb) + extract(field, 0, (top - lsb) as nat) * pow2(lsb) + extract(
            v,
            top,
            width,
        ) * pow2(top)
    } else {
        v
    }
}

/// `v` shifted left by `k` places inside `width` bits: what leaves at the top
/// is lost.
pub open spec fn shift_left(width: nat, v: nat, k: nat) -> nat {
    (v * pow2(k)) % pow2(width)
}

/// `v` shifted right by `k` places: what leaves at the bottom is lost.
pub open spec fn shift_right(v: nat, k: nat) -> nat {
    v / pow2(k)
}

/// A value below `2^width` has no bit set at position `width` or above.
pub proof fn lemma_bit_beyond(v: nat, width: nat, i: nat)
    requires
        v < pow2(width),
        width <= i,
    ensures
        !bit_at(v, i),
{
    if width < i {
        lemma_pow2_strictly_increases(width, i);
    }
    lemma_basic_div(v as int, pow2(i) as int);
}

/// Zero has no bit set.
pub proof fn lemma_bit_of_zero(i: nat)
    ensures
        !bit_at(0, i),
{
    lemma_pow2_pos(i);
}

/// One has bit 0 set and no other.
pub proof fn lemma_bit_of_one(i: nat)
    ensures
        bit_at(1, i) == (i == 0),
{
    lemma2_to64();
    if i > 0 {
        lemma_bit_beyond(1, 1, i);
    }
}

/// Every number lies below the power of two of itself, so it has finitely
/// many bits.
pub proof fn lemma_below_pow2(v: nat)
    ensures
        v < pow2(v),
    decreases v,
{
    lemma2_to64();
    if v > 0 {
        lemma_below_pow2((v - 1) as nat);
        lemma_pow2_adds(1, (v - 1) as nat);
    }
}

/// A number is its low `k` bits, and above them what is left of it after
/// division by `2^k`.
pub proof fn lemma_split(v: nat, k: nat)
    ensures
        v == v % pow2(k) + (v / pow2(k)) * pow2(k),
        v % pow2(k) < pow2(k),
{
    let d = pow2(k) as int;
    lemma_pow2_pos(k);
    lemma_fundamental_div_mod(v as int, d);
    assert(v == v % pow2(k) + (v / pow2(k)) * pow2(k)) by (nonlinear_arith)
        requires
            v == d * (v as int / d) + (v as int % d),
            d == pow2(k),
            v as int / d >= 0,
    ;
}

/// Dividing by `2^k` moves every bit down by `k` places.
pub proof fn lemma_bit_of_quotient(v: nat, k: nat, i: nat)
    ensures
        bit_at(v / pow2(k), i) == bit_at(v, k + i),
{
    lemma_pow2_pos(k);
    lemma_pow2_pos(i);
    lemma_pow2_adds(k, i);
    lemma_div_denominator(v as int, pow2(k) as int, pow2(i) as int);
}

/// The bits of `low + high * 2^k`, where `low` has `k` bits: the bits of `low`
/// below position `k`, and those of `high` from there on.
pub proof fn lemma_bit_of_join(low: nat, high: nat, k: nat, i: nat)
    requires
        low < pow2(k),
    ensures
        bit_at(low + high * pow2(k), i) == if i < k {
            bit_at(low, i)
        } else {
            bit_at(high, (i - k) as nat)
        },
{
    let d = pow2(k);
    let x = low + high * d;
    if i < k {
        let j = (k - i) as nat;
        let e = pow2(i);
        lemma_pow2_adds(i, j);
        // x == low + (high * 2^j) * 2^i, so x / 2^i == low / 2^i + high * 2^j
        let q = low / e;
        let r = low % e;
        lemma_fundamental_div_mod(low as int, e as int);
        assert(high * d == (high * pow2(j)) * e) by {
            lemma_mul_is_associative(high as int, pow2(j) as int, e as int);
        }
        assert(x == (q + high * pow2(j)) * e + r) by (nonlinear_arith)
            requires
                x == low + high * d,
                high * d == (high * pow2(j)) * e,
                low == e * q + r,
        ;
        lemma_fundamental_div_mod_converse(x as int, e as int, (q + high * pow2(j)) as int, r as int);
        // 2^j is even, as j >= 1
        lemma_pow2_adds(1, (j - 1) as nat);
        lemma2_to64();
        let h = pow2((j - 1) as nat);
        assert(high * pow2(j) == 2 * (high * h)) by (nonlinear_arith)
            requires
                pow2(j) == 2 * h,
        ;
    } else {
        let j = (i - k) as nat;
        lemma_pow2_adds(k, j);
        lemma_pow2_pos(j);
        lemma_div_denominator(x as int, d as int, pow2(j) as int);
        lemma_fundamental_div_mod_converse(x as int, d as int, high as int, low as int);
    }
}

/// Two values of `width` bits that agree on each of these bits are equal.
pub proof fn lemma_bits_determine(a: nat, b: nat, width: nat)
    requires
        a < pow2(width),
        b < pow2(width),
        forall|i: nat| i < width ==> bit_at(a, i) == bit_at(b, i),
    ensures
        a == b,
    decreases width,
{
    lemma2_to64();
    if width > 0 {
        let w = (width - 1) as nat;
        lemma_pow2_adds(1, w);
        let a2 = a / 2;
        let b2 = b / 2;
        assert forall|i: nat| i < w implies bit_at(a2, i) == bit_at(b2, i) by {
            lemma_bit_of_quotient(a, 1, i);
            lemma_bit_of_quotient(b, 1, i);
        }
        lemma_bits_determine(a2, b2, w);
        assert(bit_at(a, 0) == bit_at(b, 0));
    }
}

/// Two numbers that agree on every bit are equal.
pub proof fn lemma_same_bits(a: nat, b: nat)
    requires
        forall|i: nat| bit_at(a, i) == bit_at(b, i),
    ensures
        a == b,
{
    let width = if a < b { b } else { a };
    lemma_below_pow2(a);
    lemma_below_pow2(b);
    if a < width {
        lemma_pow2_strictly_increases(a, width);
    }
    if b < width {
        lemma_pow2_strictly_increases(b, width);
    }
    lemma_bits_determine(a, b, width);
}

/// A number is zero exactly when none of its bits is set.
pub proof fn lemma_zero_has_no_bits(v: nat)
    ensures
        (v == 0) <==> (forall|i: nat| !bit_at(v, i)),
{
    if v == 0 {
        assert forall|i: nat| !bit_at(v, i) by {
            lemma_bit_of_zero(i);
        }
    }
    if forall|i: nat| !bit_at(v, i) {
        assert forall|i: nat| bit_at(v, i) == bit_at(0, i) by {
            lemma_bit_of_zero(i);
        }
        lemma_same_bits(v, 0);
    }
}

/// An extracted range fits in as many bits as the range is long.
pub proof fn lemma_extract_bound(v: nat, lsb: nat, msb: nat)
    ensures
        extract(v, lsb, msb) < pow2((msb - lsb) as nat),
{
    lemma_pow2_pos((msb - lsb) as nat);
    if lsb < msb {
        lemma_mod_bound((v / pow2(lsb)) as int, pow2((msb - lsb) as nat) as int);
    }
}

/// An extracted range is no larger than its source.
pub proof fn lemma_extract_le(v: nat, lsb: nat, msb: nat)
    ensures
        extract(v, lsb, msb) <= v,
{
    if lsb < msb {
        lemma_pow2_pos(lsb);
        lemma_pow2_pos((msb - lsb) as nat);
        vstd::arithmetic::div_mod::lemma_mod_decreases(v / pow2(lsb), pow2((msb - lsb) as nat));
    }
}

/// Bit `i` of an extracted range is bit `lsb + i` of the source, as long as
/// that bit is inside the range.
pub proof fn lemma_bit_of_extract(v: nat, lsb: nat, msb: nat, i: nat)
    ensures
        bit_at(extract(v, lsb, msb), i) == (lsb + i < msb && bit_at(v, lsb + i)),
{
    lemma_extract_bound(v, lsb, msb);
    if lsb + i < msb {
        let n = (msb - lsb) as nat;
        let s = v / pow2(lsb);
        lemma_split(s, n);
        lemma_bit_of_join(s % pow2(n), s / pow2(n), n, i);
        lemma_bit_of_quotient(v, lsb, i);
    } else if lsb < msb {
        lemma_bit_beyond(extract(v, lsb, msb), (msb - lsb) as nat, i);
    } else {
        lemma2_to64();
        lemma_bit_beyond(0, 0, i);
    }
}

/// A value of `width` bits is the range `[0, msb)` of itself whenever `msb` is
/// at least `width`.
pub proof fn lemma_extract_all(v: nat, width: nat, msb: nat)
    requires
        v < pow2(width),
        width <= msb,
    ensures
        extract(v, 0, msb) == v,
{
    lemma2_to64();
    if 0 < msb {
        if width < msb {
            lemma_pow2_strictly_increases(width, msb);
        }
        lemma_small_mod(v, pow2(msb));
    }
}

/// The result of a replacement still fits in `width` bits.
pub proof fn lemma_replace_bound(width: nat, v: nat, lsb: nat, msb: nat, field: nat)
    requires
        v < pow2(width),
    ensures
        replace(width, v, lsb, msb, field) < pow2(width),
{
    let top = clip(width, lsb, msb);
    if lsb < top {
        let n = (top - lsb) as nat;
        let m = (width - top) as nat;
        let a = extract(v, 0, lsb);
        let f = extract(field, 0, n);
        let h = extract(v, top, width);
        lemma_extract_bound(field, 0, n);
        lemma_pow2_adds(lsb, n);
        lemma_pow2_adds(top, m);
        lemma_pow2_pos(lsb);
        assert(a + f * pow2(lsb) < pow2(top)) by (nonlinear_arith)
            requires
                a < pow2(lsb),
                f + 1 <= pow2(n),
                pow2(lsb) * pow2(n) == pow2(top),
        ;
        assert(a + f * pow2(lsb) + h * pow2(top) < pow2(width)) by (nonlinear_arith)
            requires
                a + f * pow2(lsb) < pow2(top),
                h + 1 <= pow2(m),
                pow2(top) * pow2(m) == pow2(width),
        ;
    }
}

/// Bit `i` of the result of a replacement: inside the range it is a bit of
/// `field`, outside it is the bit that `v` had.
pub proof fn lemma_bit_of_replace(width: nat, v: nat, lsb: nat, msb: nat, field: nat, i: nat)
    requires
        v < pow2(width),
        i < width,
    ensures
        bit_at(replace(width, v, lsb, msb, field), i) == if lsb <= i < msb {
            bit_at(field, (i - lsb) as nat)
        } else {
            bit_at(v, i)
        },
{
    let top = clip(width, lsb, msb);
    if lsb < top {
        let n = (top - lsb) as nat;
        let a = extract(v, 0, lsb);
        let f = extract(field, 0, n);
        let h = extract(v, top, width);
        lemma_extract_bound(field, 0, n);
        lemma_pow2_adds(lsb, n);
        lemma_pow2_pos(lsb);
        let low = a + f * pow2(lsb);
        assert(low < pow2(top)) by (nonlinear_arith)
            requires
                low == a + f * pow2(lsb),
                a < pow2(lsb),
                f + 1 <= pow2(n),
                pow2(lsb) * pow2(n) == pow2(top),
        ;
        lemma_bit_of_join(low, h, top, i);
        if i < top {
            lemma_bit_of_join(a, f, lsb, i);
            if i < lsb {
                lemma_bit_of_extract(v, 0, lsb, i);
            } else {
                lemma_bit_of_extract(field, 0, n, (i - lsb) as nat);
            }
        } else {
            lemma_bit_of_extract(v, top, width, (i - top) as nat);
        }
    }
}

/// Bit `i` of a left shift by `k` is bit `i - k` of the source, and a zero
/// below position `k`.
pub proof fn lemma_bit_of_shift_left(width: nat, v: nat, k: nat, i: nat)
    requires
        i < width,
    ensures
        bit_at(shift_left(width, v, k), i) == (k <= i && bit_at(v, (i - k) as nat)),
{
    let x = v * pow2(k);
    lemma2_to64();
    lemma_pow2_pos(k);
    lemma_bit_of_join(0, v, k, i);
    lemma_bit_of_extract(x, 0, width, i);
    if i < k {
        lemma_bit_beyond(0, 0, i);
    }
}

/// A left shift by the full width or more leaves nothing.
pub proof fn lemma_shift_left_saturates(width: nat, v: nat, k: nat)
    requires
        width <= k,
    ensures
        shift_left(width, v, k) == 0,
{
    let j = (k - width) as nat;
    lemma_pow2_adds(width, j);
    lemma_pow2_pos(width);
    assert(v * pow2(k) == pow2(width) * (v * pow2(j)) + 0) by (nonlinear_arith)
        requires
            pow2(k) == pow2(width) * pow2(j),
    ;
    lemma_mod_multiples_vanish((v * pow2(j)) as int, 0, pow2(width) as int);
}

/// A right shift of a `width`-bit value by the full width or more leaves
/// nothing.
pub proof fn lemma_shift_right_saturates(width: nat, v: nat, k: nat)
    requires
        v < pow2(width),
        width <= k,
    ensures
        shift_right(v, k) == 0,
{
    if width < k {
        lemma_pow2_strictly_increases(width, k);
    }
    lemma_basic_div(v as int, pow2(k) as int);
}

/// A `width`-bit value whose bits are those of `v` moved up by `k` places is
/// `v` shifted left by `k`.
pub proof fn lemma_shift_left_by_bits(width: nat, v: nat, k: nat, r: nat)
    requires
        r < pow2(width),
        forall|i: nat| i < width ==> bit_at(r, i) == (k <= i && bit_at(v, (i - k) as nat)),
    ensures
        r == shift_left(width, v, k),
{
    assert forall|i: nat| i < width implies bit_at(r, i) == bit_at(shift_left(width, v, k), i) by {
        lemma_bit_of_shift_left(width, v, k, i);
    }
    lemma_bits_determine(r, shift_left(width, v, k), width);
}

/// A bit is set exactly when the range that holds only this bit is not zero.
pub proof fn lemma_bit_is_extract(v: nat, i: nat)
    ensures
        bit_at(v, i) == (extract(v, i, i + 1) != 0),
{
    lemma2_to64();
}

/// Bit `i` of what is read from the range `[lsb2, msb2)` after the range
/// `[lsb1, msb1)` has been replaced by `field`: where the two ranges share a
/// position it is a bit of `field`, elsewhere it is the bit that `v` had.
pub proof fn lemma_bit_of_extract_of_replace(
    width: nat,
    v: nat,
    lsb1: nat,
    msb1: nat,
    field: nat,
    lsb2: nat,
    msb2: nat,
    i: nat,
)
    requires
        v < pow2(width),
    ensures
        bit_at(extract(replace(width, v, lsb1, msb1, field), lsb2, msb2), i) == (lsb2 + i < msb2 && if lsb1
            <= lsb2 + i < msb1 && lsb2 + i < width {
            bit_at(field, (lsb2 + i - lsb1) as nat)
        } else {
            bit_at(v, lsb2 + i)
        }),
{
    let w = replace(width, v, lsb1, msb1, field);
    lemma_bit_of_extract(w, lsb2, msb2, i);
    if lsb2 + i < width {
        lemma_bit_of_replace(width, v, lsb1, msb1, field, lsb2 + i);
    } else {
        lemma_replace_bound(width, v, lsb1, msb1, field);
        lemma_bit_beyond(w, width, lsb2 + i);
        lemma_bit_beyond(v, width, lsb2 + i);
    }
}

/// Reading a range back after replacing it gives the low bits of what was
/// put there: as many of them as the range has positions inside the value.
pub proof fn lemma_extract_of_replace(width: nat, v: nat, lsb: nat, msb: nat, field: nat)
    requires
        v < pow2(width),
    ensures
        extract(replace(width, v, lsb, msb, field), lsb, msb) == extract(
            field,
            0,
            (clip(width, lsb, msb) - lsb) as nat,
        ),
{
    let top = clip(width, lsb, msb);
    let got = extract(replace(width, v, lsb, msb, field), lsb, msb);
    let put = extract(field, 0, (top - lsb) as nat);
    assert forall|i: nat| bit_at(got, i) == bit_at(put, i) by {
        lemma_bit_of_extract_of_replace(width, v, lsb, msb, field, lsb, msb, i);
        lemma_bit_of_extract(field, 0, (top - lsb) as nat, i);
        if lsb + i >= width {
            lemma_bit_beyond(v, width, lsb + i);
        }
    }
    lemma_same_bits(got, put);
}

/// Replacing a range changes nothing that is read from a range that shares no
/// position with it.
pub proof fn lemma_extract_beside_replace(
    width: nat,
    v: nat,
    lsb1: nat,
    msb1: nat,
    field: nat,
    lsb2: nat,
    msb2: nat,
)
    requires
        v < pow2(width),
        msb1 <= lsb2 || msb2 <= lsb1,
    ensures
        extract(replace(width, v, lsb1, msb1, field), lsb2, msb2) == extract(v, lsb2, msb2),
{
    let got = extract(replace(width, v, lsb1, msb1, field), lsb2, msb2);
    let had = extract(v, lsb2, msb2);
    assert forall|i: nat| bit_at(got, i) == bit_at(had, i) by {
        lemma_bit_of_extract_of_replace(width, v, lsb1, msb1, field, lsb2, msb2, i);
        lemma_bit_of_extract(v, lsb2, msb2, i);
    }
    lemma_same_bits(got, had);
}

} // verus!
