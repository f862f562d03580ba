//! What holds of the accessors, whatever the wrapper, the field and the value.

use vstd::prelude::*;
use vstd::arithmetic::power2::{pow2, lemma2_to64, lemma_pow2_pos, lemma_pow2_strictly_increases};
use vstd::arithmetic::div_mod::lemma_small_mod;
use vstd::std_specs::convert::FromSpec;
use crate::access::{
    flagged,
    stored,
    updated,
    lemma_flagged_as_nat,
    lemma_stored_as_nat,
    lemma_updated_as_nat,
};
use crate::bitfield::Bitfield;
use crate::bits::flag;
use crate::field::{Field, overlap};
use crate::layout::{reading, Accessor, Kind, Storage};
use crate::model::{
    bit_at,
    clip,
    extract,
    replace,
    lemma_bit_of_extract,
    lemma_bit_of_extract_of_replace,
    lemma_bit_of_one,
    lemma_bit_of_replace,
    lemma_bit_of_zero,
    lemma_extract_all,
    lemma_extract_beside_replace,
    lemma_extract_le,
    lemma_extract_of_replace,
    lemma_replace_bound,
    lemma_same_bits,
};
use crate::word::Word;

verus! {

/// The number of positions of `field` that lie inside a value of type `T`.
pub open spec fn span<T: Word>(field: Field) -> nat {
    (clip(T::width(), field.low(), field.high()) - field.low()) as nat
}

/// Round trip: unwrapping a wrapper and wrapping the value again gives the
/// wrapper back, and wrapping a value and unwrapping it again gives the value
/// back.
pub proof fn lemma_round_trip<T: Word, B: Bitfield<T>>(wrapper: B, value: T)
    ensures
        B::wrap(wrapper.raw()) == wrapper,
        B::wrap(value).raw() == value,
{
    wrapper.lemma_wrap_raw();
    B::lemma_raw_wrap(value);
}

/// Equality is equality of the whole underlying values: two wrappers are equal
/// exactly when their underlying values are, so a difference in a bit that no
/// field covers makes two wrappers differ.
pub proof fn lemma_equality_is_raw_equality<T: Word, B: Bitfield<T>>(a: B, b: B)
    ensures
        (a == b) <==> (a.raw() == b.raw()),
        (a == b) <==> (a.raw().as_nat() == b.raw().as_nat()),
{
    a.lemma_wrap_raw();
    b.lemma_wrap_raw();
    if a.raw().as_nat() == b.raw().as_nat() {
        a.raw().lemma_as_nat_injective(b.raw());
    }
}

/// Two underlying values that differ in one bit give different wrappers, also
/// where every field reads the same from both.
pub proof fn lemma_any_bit_tells_apart<T: Word, B: Bitfield<T>>(a: T, b: T, i: nat)
    requires
        bit_at(a.as_nat(), i) != bit_at(b.as_nat(), i),
    ensures
        B::wrap(a) != B::wrap(b),
{
    B::lemma_raw_wrap(a);
    B::lemma_raw_wrap(b);
}

/// Get after with: the getter of a field reads back what its with-builder
/// stored, cut down to the bits of the field that lie inside the underlying
/// value. A value that fits into those bits is read back unchanged.
pub proof fn lemma_get_after_with<T: Word, S: Word>(raw: T, field: Field, value: S)
    ensures
        stored::<T, S>(updated::<T, S>(raw, field, value), field) == S::from_nat(
            extract(value.as_nat(), 0, span::<T>(field)),
        ),
        value.as_nat() < pow2(span::<T>(field)) ==> stored::<T, S>(
            updated::<T, S>(raw, field, value),
            field,
        ) == value,
{
    let width = T::width();
    let n = span::<T>(field);
    let next = updated::<T, S>(raw, field, value);
    let put = extract(value.as_nat(), 0, n);
    raw.lemma_as_nat_bounded();
    value.lemma_as_nat_bounded();
    lemma_updated_as_nat::<T, S>(raw, field, value);
    lemma_extract_of_replace(width, raw.as_nat(), field.low(), field.high(), value.as_nat());
    // narrowing to the storage type changes nothing: `put` is no larger than `value`
    lemma2_to64();
    if 0 < n {
        lemma_pow2_pos(n);
        vstd::arithmetic::div_mod::lemma_mod_decreases(value.as_nat(), pow2(n));
    }
    lemma_small_mod(put, pow2(S::width()));
    if value.as_nat() < pow2(n) {
        if 0 < n {
            lemma_small_mod(value.as_nat(), pow2(n));
        }
        S::lemma_from_nat(value.as_nat());
        S::from_nat(value.as_nat()).lemma_as_nat_injective(value);
    }
}

/// Get after with, through an interface type: where the conversion to the
/// storage type gives a value that fits the field, and the conversion back
/// undoes it, the getter reads back the interface value that the with-builder
/// was given.
pub proof fn lemma_get_as_after_with_as<T: Word, S: Word + From<I>, I: From<S>>(
    raw: T,
    field: Field,
    value: I,
)
    requires
        <S as FromSpec<I>>::from_spec(value).as_nat() < pow2(span::<T>(field)),
        <I as FromSpec<S>>::from_spec(<S as FromSpec<I>>::from_spec(value)) == value,
    ensures
        <I as FromSpec<S>>::from_spec(
            stored::<T, S>(updated::<T, S>(raw, field, <S as FromSpec<I>>::from_spec(value)), field),
        ) == value,
{
    lemma_get_after_with::<T, S>(raw, field, <S as FromSpec<I>>::from_spec(value));
}

/// Get after with, for a flag: the getter reads back what the with-builder
/// stored.
pub proof fn lemma_flag_after_with<T: Word>(raw: T, bit: nat, value: bool)
    requires
        bit < T::width(),
    ensures
        bit_at(flagged::<T>(raw, bit, value).as_nat(), bit) == value,
{
    raw.lemma_as_nat_bounded();
    lemma_flagged_as_nat::<T>(raw, bit, value);
    lemma_bit_of_replace(T::width(), raw.as_nat(), bit, bit + 1, flag(value), bit);
    lemma_bit_of_one(0);
    lemma_bit_of_zero(0);
}

/// Reading one field after writing another: bit `i` of what the getter of
/// `read` gives after the with-builder of `written` has stored `value` is a
/// bit of `value` where the position belongs to both fields, and the bit that
/// the underlying value had where it belongs to `read` alone.
pub proof fn lemma_read_after_write<T: Word, S1: Word, S2: Word>(
    raw: T,
    written: Field,
    value: S1,
    read: Field,
    i: nat,
)
    ensures
        bit_at(stored::<T, S2>(updated::<T, S1>(raw, written, value), read).as_nat(), i) == (i
            < S2::width() && read.low() + i < read.high() && if written.low() <= read.low() + i
            < written.high() && read.low() + i < T::width() {
            bit_at(value.as_nat(), (read.low() + i - written.low()) as nat)
        } else {
            bit_at(raw.as_nat(), read.low() + i)
        }),
{
    let next = updated::<T, S1>(raw, written, value);
    raw.lemma_as_nat_bounded();
    lemma_updated_as_nat::<T, S1>(raw, written, value);
    lemma_stored_as_nat::<T, S2>(next, read);
    lemma_bit_of_extract(extract(next.as_nat(), read.low(), read.high()), 0, S2::width(), i);
    lemma_bit_of_extract_of_replace(
        T::width(),
        raw.as_nat(),
        written.low(),
        written.high(),
        value.as_nat(),
        read.low(),
        read.high(),
        i,
    );
}

/// Non-interference between fields: a with-builder changes nothing that the
/// getter of a field without a common bit reads.
pub proof fn lemma_other_field_unchanged<T: Word, S1: Word, S2: Word>(
    raw: T,
    written: Field,
    value: S1,
    read: Field,
)
    requires
        !overlap(written.low(), written.high(), read.low(), read.high()),
    ensures
        stored::<T, S2>(updated::<T, S1>(raw, written, value), read) == stored::<T, S2>(raw, read),
{
    raw.lemma_as_nat_bounded();
    lemma_updated_as_nat::<T, S1>(raw, written, value);
    lemma_extract_beside_replace(
        T::width(),
        raw.as_nat(),
        written.low(),
        written.high(),
        value.as_nat(),
        read.low(),
        read.high(),
    );
}

/// Non-interference between a field and a flag: a field's with-builder leaves
/// every bit outside the field as it was.
pub proof fn lemma_flag_unchanged_by_field<T: Word, S: Word>(raw: T, written: Field, value: S, bit: nat)
    requires
        bit < written.low() || written.high() <= bit,
    ensures
        bit_at(updated::<T, S>(raw, written, value).as_nat(), bit) == bit_at(raw.as_nat(), bit),
{
    let next = updated::<T, S>(raw, written, value);
    raw.lemma_as_nat_bounded();
    next.lemma_as_nat_bounded();
    lemma_updated_as_nat::<T, S>(raw, written, value);
    if bit < T::width() {
        lemma_bit_of_replace(
            T::width(),
            raw.as_nat(),
            written.low(),
            written.high(),
            value.as_nat(),
            bit,
        );
    } else {
        crate::model::lemma_bit_beyond(raw.as_nat(), T::width(), bit);
        crate::model::lemma_bit_beyond(next.as_nat(), T::width(), bit);
    }
}

/// Non-interference between a flag and a field: a flag's with-builder changes
/// nothing that the getter of a field that does not hold the flag reads.
pub proof fn lemma_field_unchanged_by_flag<T: Word, S: Word>(raw: T, bit: nat, value: bool, read: Field)
    requires
        bit < read.low() || read.high() <= bit,
    ensures
        stored::<T, S>(flagged::<T>(raw, bit, value), read) == stored::<T, S>(raw, read),
{
    raw.lemma_as_nat_bounded();
    lemma_flagged_as_nat::<T>(raw, bit, value);
    lemma_extract_beside_replace(
        T::width(),
        raw.as_nat(),
        bit,
        bit + 1,
        flag(value),
        read.low(),
        read.high(),
    );
}

/// Non-interference between flags: a flag's with-builder leaves every other
/// bit as it was.
pub proof fn lemma_flag_unchanged_by_flag<T: Word>(raw: T, written: nat, value: bool, bit: nat)
    requires
        bit != written,
    ensures
        bit_at(flagged::<T>(raw, written, value).as_nat(), bit) == bit_at(raw.as_nat(), bit),
{
    let next = flagged::<T>(raw, written, value);
    raw.lemma_as_nat_bounded();
    next.lemma_as_nat_bounded();
    lemma_flagged_as_nat::<T>(raw, written, value);
    if bit < T::width() {
        lemma_bit_of_replace(T::width(), raw.as_nat(), written, written + 1, flag(value), bit);
    } else {
        crate::model::lemma_bit_beyond(raw.as_nat(), T::width(), bit);
        crate::model::lemma_bit_beyond(next.as_nat(), T::width(), bit);
    }
}

/// The single-bit path: a bit is set exactly when the range that holds only
/// this bit is not zero, so reading a flag and reading a field of one bit
/// agree.
pub proof fn lemma_single_bit<T: Word>(value: T, bit: nat)
    ensures
        bit_at(value.as_nat(), bit) == (extract(value.as_nat(), bit, bit + 1) != 0),
        bit_at(value.as_nat(), bit) == (T::from_nat(extract(value.as_nat(), bit, bit + 1))
            != T::from_nat(0)),
{
    let range = extract(value.as_nat(), bit, bit + 1);
    lemma2_to64();
    T::lemma_width_positive();
    if 1 < T::width() {
        lemma_pow2_strictly_increases(1, T::width());
    }
    T::lemma_from_nat(range);
    T::lemma_from_nat(0);
}

/// The dump shows what the getters read: for a range, the number that the
/// getter with a storage type of the same width gives; for a flag, 1 or 0 as
/// the getter gives `true` or `false`.
pub proof fn lemma_dump_shows_getter_values<T: Word, S: Word>(
    raw: T,
    name: &'static str,
    field: Field,
    storage: Storage,
    bit: u8,
)
    requires
        S::width() == storage.width(),
    ensures
        reading(raw, Accessor { name, kind: Kind::Range(field, storage) }).as_nat() == stored::<T, S>(
            raw,
            field,
        ).as_nat(),
        reading(raw, Accessor { name, kind: Kind::Flag(bit) }).as_nat() == flag(
            bit_at(raw.as_nat(), bit as nat),
        ),
{
    let e = extract(raw.as_nat(), field.low(), field.high());
    raw.lemma_as_nat_bounded();
    lemma_stored_as_nat::<T, S>(raw, field);
    lemma_extract_le(raw.as_nat(), field.low(), field.high());
    lemma_pow2_pos(storage.width());
    vstd::arithmetic::div_mod::lemma_mod_decreases(e, pow2(storage.width()));
    T::lemma_from_nat(e % pow2(storage.width()));
    lemma2_to64();
    T::lemma_width_positive();
    if 1 < T::width() {
        lemma_pow2_strictly_increases(1, T::width());
    }
    T::lemma_from_nat(flag(bit_at(raw.as_nat(), bit as nat)));
}

/// The boundary of the shifts: the range that starts at bit 0 and ends at the
/// width of the type, or beyond it, is the whole value.
pub proof fn lemma_whole_value<T: Word>(value: T, msb: nat)
    requires
        T::width() <= msb,
    ensures
        extract(value.as_nat(), 0, msb) == value.as_nat(),
        T::from_nat(extract(value.as_nat(), 0, msb)) == value,
{
    value.lemma_as_nat_bounded();
    lemma_extract_all(value.as_nat(), T::width(), msb);
    T::lemma_from_nat(value.as_nat());
    T::from_nat(value.as_nat()).lemma_as_nat_injective(value);
}

/// A field that spans the whole underlying value: its getter reads the
/// underlying value itself, and its with-builder stores the new value as the
/// underlying value.
pub proof fn lemma_whole_width_field<T: Word>(raw: T, field: Field, value: T)
    requires
        field.low() == 0,
        field.high() == T::width(),
    ensures
        stored::<T, T>(raw, field) == raw,
        updated::<T, T>(raw, field, value) == value,
{
    let width = T::width();
    raw.lemma_as_nat_bounded();
    value.lemma_as_nat_bounded();
    lemma_extract_all(raw.as_nat(), width, width);
    lemma_stored_as_nat::<T, T>(raw, field);
    stored::<T, T>(raw, field).lemma_as_nat_injective(raw);
    lemma_updated_as_nat::<T, T>(raw, field, value);
    let next = replace(width, raw.as_nat(), 0, width, value.as_nat());
    assert forall|i: nat| bit_at(next, i) == bit_at(value.as_nat(), i) by {
        lemma_replace_bound(width, raw.as_nat(), 0, width, value.as_nat());
        if i < width {
            lemma_bit_of_replace(width, raw.as_nat(), 0, width, value.as_nat(), i);
        } else {
            crate::model::lemma_bit_beyond(next, width, i);
            crate::model::lemma_bit_beyond(value.as_nat(), width, i);
        }
    }
    lemma_same_bits(next, value.as_nat());
    updated::<T, T>(raw, field, value).lemma_as_nat_injective(value);
}

} // verus!
