//! The accessors of a field: its getter, its with-builder and its setter.
//!
//! A getter reads the whole underlying value, takes the field's bits out of it
//! and narrows them to the field's storage type. A with-builder widens the new
//! value to the underlying type, puts it in place of the field's bits and
//! wraps the result; the receiver is left as it was. A setter is its
//! with-builder, with the result written back over the receiver.

use vstd::prelude::*;
use vstd::arithmetic::power2::{pow2, lemma2_to64, lemma_pow2_pos};
use vstd::std_specs::convert::FromSpec;
use crate::bitfield::Bitfield;
use crate::bits::{flag, get_bit, get_bits, set_bit, set_bits};
use crate::convert::{TruncateInto, WidenInto};
use crate::field::Field;
use crate::model::{bit_at, extract, replace, lemma_replace_bound};
use crate::shift::{OverflowingShl, OverflowingShr};
use crate::word::Word;

verus! {

/// What the getter of `field` reads from the underlying value `raw`: the
/// field's bits, narrowed to the storage type `S`.
pub open spec fn stored<T: Word, S: Word>(raw: T, field: Field) -> S {
    S::from_nat(extract(raw.as_nat(), field.low(), field.high()) % pow2(S::width()))
}

/// The underlying value that the with-builder of `field` makes from `raw` and
/// the storage value `value`: `raw` with the field's bits replaced by the low
/// bits of `value`.
pub open spec fn updated<T: Word, S: Word>(raw: T, field: Field, value: S) -> T {
    T::from_nat(replace(T::width(), raw.as_nat(), field.low(), field.high(), value.as_nat()))
}

/// The underlying value that the with-builder of the flag at position `bit`
/// makes from `raw`: `raw` with that one bit replaced by `value`.
pub open spec fn flagged<T: Word>(raw: T, bit: nat, value: bool) -> T {
    T::from_nat(replace(T::width(), raw.as_nat(), bit, bit + 1, flag(value)))
}

/// The number that the result of a with-builder stands for: the replacement
/// always fits the underlying type.
pub proof fn lemma_updated_as_nat<T: Word, S: Word>(raw: T, field: Field, value: S)
    ensures
        updated::<T, S>(raw, field, value).as_nat() == replace(
            T::width(),
            raw.as_nat(),
            field.low(),
            field.high(),
            value.as_nat(),
        ),
{
    raw.lemma_as_nat_bounded();
    lemma_replace_bound(T::width(), raw.as_nat(), field.low(), field.high(), value.as_nat());
    T::lemma_from_nat(replace(T::width(), raw.as_nat(), field.low(), field.high(), value.as_nat()));
}

/// The number that the result of a flag's with-builder stands for.
pub proof fn lemma_flagged_as_nat<T: Word>(raw: T, bit: nat, value: bool)
    ensures
        flagged::<T>(raw, bit, value).as_nat() == replace(
            T::width(),
            raw.as_nat(),
            bit,
            bit + 1,
            flag(value),
        ),
{
    raw.lemma_as_nat_bounded();
    lemma_replace_bound(T::width(), raw.as_nat(), bit, bit + 1, flag(value));
    T::lemma_from_nat(replace(T::width(), raw.as_nat(), bit, bit + 1, flag(value)));
}

/// The number that the result of a getter stands for: the field's bits,
/// modulo two to the width of the storage type, which is the same as the low
/// bits of the field's bits.
pub proof fn lemma_stored_as_nat<T: Word, S: Word>(raw: T, field: Field)
    ensures
        stored::<T, S>(raw, field).as_nat() == extract(raw.as_nat(), field.low(), field.high())
            % pow2(S::width()),
        stored::<T, S>(raw, field).as_nat() == extract(
            extract(raw.as_nat(), field.low(), field.high()),
            0,
            S::width(),
        ),
{
    let e = extract(raw.as_nat(), field.low(), field.high());
    lemma2_to64();
    lemma_pow2_pos(S::width());
    S::lemma_from_nat(e % pow2(S::width()));
}

/// The getter of a field with storage type `S`.
pub fn get_field<T, S, B>(host: &B, field: Field) -> (r: S) where
    T: OverflowingShl + OverflowingShr + TruncateInto<S>,
    S: Word,
    B: Bitfield<T>,

    ensures
        r == stored::<T, S>(host.raw(), field),
{
    let packed = host.value();
    let underlying: S = get_bits(packed, field.lsb(), field.msb()).truncate_into();
    proof {
        lemma_stored_as_nat::<T, S>(packed, field);
        underlying.lemma_as_nat_injective(stored::<T, S>(packed, field));
    }
    underlying
}

/// The with-builder of a field with storage type `S`: a new wrapper, in which
/// the field holds the low bits of `value` and every bit outside the field is
/// as in `host`.
pub fn with_field<T, S, B>(host: &B, field: Field, value: S) -> (r: B) where
    T: OverflowingShl,
    S: WidenInto<T>,
    B: Bitfield<T>,

    ensures
        r == B::wrap(updated::<T, S>(host.raw(), field, value)),
{
    let packed = host.value();
    let next = set_bits(packed, field.lsb(), field.msb(), value.widen_into());
    proof {
        lemma_updated_as_nat::<T, S>(packed, field, value);
        next.lemma_as_nat_injective(updated::<T, S>(packed, field, value));
    }
    B::new(next)
}

/// The setter of a field with storage type `S`: the with-builder, applied in
/// place.
pub fn set_field<T, S, B>(host: &mut B, field: Field, value: S) where
    T: OverflowingShl,
    S: WidenInto<T>,
    B: Bitfield<T>,

    ensures
        *final(host) == B::wrap(updated::<T, S>(old(host).raw(), field, value)),
{
    let next = with_field::<T, S, B>(&*host, field, value);
    *host = next;
}

/// The getter of a field whose storage type `S` is shown to callers as the
/// interface type `I`: the storage value, converted by `I::from`.
pub fn get_field_as<T, S, I, B>(host: &B, field: Field) -> (r: I) where
    T: OverflowingShl + OverflowingShr + TruncateInto<S>,
    S: Word,
    I: From<S>,
    B: Bitfield<T>,

    ensures
        call_ensures(I::from, (stored::<T, S>(host.raw(), field),), r),
        I::obeys_from_spec() ==> r == I::from_spec(stored::<T, S>(host.raw(), field)),
{
    let underlying: S = get_field::<T, S, B>(host, field);
    I::from(underlying)
}

/// The with-builder of a field whose storage type `S` is shown to callers as
/// the interface type `I`: `value` is converted by `S::from` and stored.
pub fn with_field_as<T, S, I, B>(host: &B, field: Field, value: I) -> (r: B) where
    T: OverflowingShl,
    S: WidenInto<T> + From<I>,
    B: Bitfield<T>,

    ensures
        exists|storage: S| #[trigger]
            call_ensures(S::from, (value,), storage) && r == B::wrap(
                updated::<T, S>(host.raw(), field, storage),
            ),
        S::obeys_from_spec() ==> r == B::wrap(
            updated::<T, S>(host.raw(), field, S::from_spec(value)),
        ),
{
    let underlying: S = S::from(value);
    with_field::<T, S, B>(host, field, underlying)
}

/// The setter of a field whose storage type `S` is shown to callers as the
/// interface type `I`: the with-builder, applied in place.
pub fn set_field_as<T, S, I, B>(host: &mut B, field: Field, value: I) where
    T: OverflowingShl,
    S: WidenInto<T> + From<I>,
    B: Bitfield<T>,

    ensures
        exists|storage: S| #[trigger]
            call_ensures(S::from, (value,), storage) && *final(host) == B::wrap(
                updated::<T, S>(old(host).raw(), field, storage),
            ),
        S::obeys_from_spec() ==> *final(host) == B::wrap(
            updated::<T, S>(old(host).raw(), field, S::from_spec(value)),
        ),
{
    let next = with_field_as::<T, S, I, B>(&*host, field, value);
    *host = next;
}

/// The getter of a field that is itself a wrapper `N` around the storage type
/// `S`: the wrapper of the storage value.
pub fn get_nested<T, S, N, B>(host: &B, field: Field) -> (r: N) where
    T: OverflowingShl + OverflowingShr + TruncateInto<S>,
    S: Word,
    N: Bitfield<S>,
    B: Bitfield<T>,

    ensures
        r == N::wrap(stored::<T, S>(host.raw(), field)),
{
    N::new(get_field::<T, S, B>(host, field))
}

/// The with-builder of a field that is itself a wrapper `N` around the storage
/// type `S`: the underlying value of `value` is stored.
pub fn with_nested<T, S, N, B>(host: &B, field: Field, value: N) -> (r: B) where
    T: OverflowingShl,
    S: WidenInto<T>,
    N: Bitfield<S>,
    B: Bitfield<T>,

    ensures
        r == B::wrap(updated::<T, S>(host.raw(), field, value.raw())),
{
    with_field::<T, S, B>(host, field, value.value())
}

/// The setter of a field that is itself a wrapper `N` around the storage type
/// `S`: the with-builder, applied in place.
pub fn set_nested<T, S, N, B>(host: &mut B, field: Field, value: N) where
    T: OverflowingShl,
    S: WidenInto<T>,
    N: Bitfield<S>,
    B: Bitfield<T>,

    ensures
        *final(host) == B::wrap(updated::<T, S>(old(host).raw(), field, value.raw())),
{
    let next = with_nested::<T, S, N, B>(&*host, field, value);
    *host = next;
}

/// The getter of the flag at position `bit`, which has to lie inside the
/// underlying value.
pub fn get_flag<T, B>(host: &B, bit: u8) -> (r: bool) where T: Word, B: Bitfield<T>
    requires
        bit < T::width(),
    ensures
        r == bit_at(host.raw().as_nat(), bit as nat),
{
    get_bit(host.value(), bit)
}

/// The with-builder of the flag at position `bit`, which has to lie inside the
/// underlying value: a new wrapper, in which that bit is `value` and every
/// other bit is as in `host`.
pub fn with_flag<T, B>(host: &B, bit: u8, value: bool) -> (r: B) where T: Word, B: Bitfield<T>
    requires
        bit < T::width(),
    ensures
        r == B::wrap(flagged::<T>(host.raw(), bit as nat, value)),
{
    let packed = host.value();
    let next = set_bit(packed, bit, value);
    proof {
        lemma_flagged_as_nat::<T>(packed, bit as nat, value);
        next.lemma_as_nat_injective(flagged::<T>(packed, bit as nat, value));
    }
    B::new(next)
}

/// The setter of the flag at position `bit`, which has to lie inside the
/// underlying value: the with-builder, applied in place.
pub fn set_flag<T, B>(host: &mut B, bit: u8, value: bool) where T: Word, B: Bitfield<T>
    requires
        bit < T::width(),
    ensures
        *final(host) == B::wrap(flagged::<T>(old(host).raw(), bit as nat, value)),
{
    let next = with_flag::<T, B>(&*host, bit, value);
    *host = next;
}

} // verus!
