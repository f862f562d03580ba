//! Typed access to bits and bit ranges of fixed-width unsigned integers, for
//! registers and for the layouts of wire and bus protocols.
//!
//! The library has two layers.
//!
//! * The primitives [`get_bit`], [`set_bit`], [`get_bits`] and [`set_bits`]
//!   read and replace bits of any [`Word`]. Their shifts saturate: a shift by
//!   the width of the type or more gives zero, so a range may end at the top
//!   of the value, or beyond it.
//! * The accessors in [`access`] read and write a [`Field`] of a wrapper, a
//!   type that implements [`Bitfield`]. Fields may overlap and need not cover
//!   every bit. A [`layout::Layout`] holds the fields declared over one
//!   underlying type, validates them once, and dumps a value through them.
//!
//! Every contract is stated over the numbers that the values stand for; the
//! functions of [`model`] say what a bit, a range and a replacement are, and
//! [`laws`] holds what follows for the accessors.

pub mod model;
pub mod word;
pub mod shift;
pub mod bits;
pub mod convert;
pub mod bitfield;
pub mod field;
pub mod access;
pub mod layout;
pub mod laws;

pub use bitfield::{Bitfield, Packed};
pub use bits::{get_bit, get_bits, set_bit, set_bits};
pub use field::{Field, SchemaError};
pub use convert::{TruncateInto, WidenInto};
pub use shift::{OverflowingShl, OverflowingShr};
pub use word::Word;
