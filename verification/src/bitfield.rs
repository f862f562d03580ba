//! Wrapper types around one underlying value.

use vstd::prelude::*;
use crate::word::Word;

verus! {

/// A type that wraps one value of `T` and holds nothing else. Converting a
/// wrapper to its underlying value and back loses nothing, in either order.
pub trait Bitfield<T: Word>: Copy + Sized {
    /// The underlying value of the wrapper.
    spec fn raw(self) -> T;

    /// The wrapper of an underlying value.
    spec fn wrap(value: T) -> Self;

    /// Unwrapping and wrapping again gives the wrapper back: a wrapper holds
    /// nothing besides its underlying value.
    proof fn lemma_wrap_raw(self)
        ensures
            Self::wrap(self.raw()) == self,
    ;

    /// Wrapping and unwrapping again gives the underlying value back: every
    /// bit pattern can be wrapped, and none is changed by it.
    proof fn lemma_raw_wrap(value: T)
        ensures
            Self::wrap(value).raw() == value,
    ;

    /// The wrapper of `value`.
    fn new(value: T) -> (r: Self)
        ensures
            r == Self::wrap(value),
    ;

    /// The underlying value.
    fn value(self) -> (r: T)
        ensures
            r == self.raw(),
    ;

    /// The default wrapper: the one whose underlying value is zero.
    fn zeroed() -> (r: Self)
        ensures
            r == Self::wrap(T::from_nat(0)),
    {
        let zero = T::zero();
        proof {
            vstd::arithmetic::power2::lemma_pow2_pos(T::width());
            T::lemma_from_nat(0);
            zero.lemma_as_nat_injective(T::from_nat(0));
        }
        Self::new(zero)
    }

    /// Whether two wrappers are equal, which they are exactly when their whole
    /// underlying values are: bits that no field covers count too.
    fn same(self, other: Self) -> (r: bool)
        ensures
            r == (self.raw() == other.raw()),
            r == (self == other),
    {
        proof {
            self.lemma_wrap_raw();
            other.lemma_wrap_raw();
        }
        self.value().equals(other.value())
    }
}

/// The plain wrapper: an underlying value and nothing more.
#[derive(Debug, PartialEq, Eq)]
pub struct Packed<T>(T);

impl<T: Copy> Clone for Packed<T> {
    fn clone(&self) -> (r: Self)
        ensures
            r == *self,
    {
        *self
    }
}

impl<T: Copy> Copy for Packed<T> {}

impl<T: Word> Bitfield<T> for Packed<T> {
    closed spec fn raw(self) -> T {
        self.0
    }

    closed spec fn wrap(value: T) -> Self {
        Packed(value)
    }

    proof fn lemma_wrap_raw(self) {
    }

    proof fn lemma_raw_wrap(value: T) {
    }

    fn new(value: T) -> (r: Self) {
        Packed(value)
    }

    fn value(self) -> (r: T) {
        self.0
    }
}

impl<T: Word> Default for Packed<T> {
    fn default() -> (r: Self)
        ensures
            r.raw().as_nat() == 0,
    {
        Packed(T::zero())
    }
}

} // verus!
