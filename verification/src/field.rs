//! Field descriptors: which bits of an underlying value a field covers.

use vstd::prelude::*;
use crate::word::Word;

verus! {

/// Why a field declaration was refused.
#[derive(Clone, Copy, Debug, PartialEq, Eq, Structural)]
pub enum SchemaError {
    /// The range ends before it starts.
    InvertedRange,
    /// The range holds no bit at all.
    EmptyRange,
    /// The field does not lie inside the underlying value, or its upper end
    /// is past the last position that can be named.
    OutOfBounds,
}

/// A field: the bits `[lsb, msb)` of an underlying value, at least one of them.
#[derive(Clone, Copy, Debug, PartialEq, Eq)]
pub struct Field {
    lsb: u8,
    msb: u8,
}

impl Field {
    /// The position of the field's lowest bit.
    pub closed spec fn low(self) -> nat {
        self.lsb as nat
    }

    /// The position just above the field's highest bit.
    pub closed spec fn high(self) -> nat {
        self.msb as nat
    }

    /// A field holds at least one bit, and its positions fit in a `u8`.
    pub open spec fn wf(self) -> bool {
        self.low() < self.high() <= u8::MAX
    }

    /// Executable code holds no field without a bit.
    #[verifier::type_invariant]
    spec fn inv(self) -> bool {
        self.lsb < self.msb
    }

    /// A field is known by the bits that it covers.
    pub proof fn lemma_positions_determine(self, other: Field)
        requires
            self.low() == other.low(),
            self.high() == other.high(),
        ensures
            self == other,
    {
    }

    /// The field `[lsb, msb)`, with `msb` itself left out. A range that ends
    /// before it starts, or that is empty, is refused.
    pub fn exclusive(lsb: u8, msb: u8) -> (r: Result<Field, SchemaError>)
        ensures
            match r {
                Ok(field) => lsb < msb && field.wf() && field.low() == lsb && field.high() == msb,
                Err(SchemaError::InvertedRange) => msb < lsb,
                Err(SchemaError::EmptyRange) => msb == lsb,
                Err(SchemaError::OutOfBounds) => false,
            },
    {
        if msb < lsb {
            Err(SchemaError::InvertedRange)
        } else if msb == lsb {
            Err(SchemaError::EmptyRange)
        } else {
            Ok(Field { lsb, msb })
        }
    }

    /// The field `[lsb, msb]`, with `msb` itself included: the same as the
    /// field `[lsb, msb + 1)`. A range that ends before it starts is refused,
    /// and so is one whose upper end cannot be stepped past.
    pub fn inclusive(lsb: u8, msb: u8) -> (r: Result<Field, SchemaError>)
        ensures
            match r {
                Ok(field) => lsb <= msb < u8::MAX && field.wf() && field.low() == lsb && field.high()
                    == msb + 1,
                Err(SchemaError::InvertedRange) => msb < lsb,
                Err(SchemaError::EmptyRange) => false,
                Err(SchemaError::OutOfBounds) => lsb <= msb == u8::MAX,
            },
    {
        if msb < lsb {
            Err(SchemaError::InvertedRange)
        } else if msb == u8::MAX {
            Err(SchemaError::OutOfBounds)
        } else {
            Ok(Field { lsb, msb: msb + 1 })
        }
    }

    /// The position of the field's lowest bit.
    pub fn lsb(&self) -> (r: u8)
        ensures
            r == self.low(),
            self.wf(),
    {
        proof {
            use_type_invariant(self);
        }
        self.lsb
    }

    /// The position just above the field's highest bit.
    pub fn msb(&self) -> (r: u8)
        ensures
            r == self.high(),
            self.wf(),
    {
        proof {
            use_type_invariant(self);
        }
        self.msb
    }

    /// The number of bits in the field.
    pub fn len(&self) -> (r: u8)
        ensures
            r == self.high() - self.low(),
            r > 0,
    {
        proof {
            use_type_invariant(self);
        }
        self.msb - self.lsb
    }

    /// Whether the whole field lies inside a value of type `T`.
    pub fn fits<T: Word>(&self) -> (r: bool)
        ensures
            r == (self.high() <= T::width()),
    {
        self.msb as u32 <= T::bit_count()
    }

    /// Whether the two fields have a bit in common.
    pub fn overlaps(&self, other: &Field) -> (r: bool)
        ensures
            r == overlap(self.low(), self.high(), other.low(), other.high()),
    {
        self.lsb < other.msb && other.lsb < self.msb
    }
}

/// Whether the ranges `[lsb1, msb1)` and `[lsb2, msb2)`, neither of them
/// empty, have a position in common.
pub open spec fn overlap(lsb1: nat, msb1: nat, lsb2: nat, msb2: nat) -> bool {
    lsb1 < msb2 && lsb2 < msb1
}

} // verus!
