//! Layouts: the ordered list of fields declared over one underlying type,
//! validated once when it is built, and the dump of a value through it.

use vstd::prelude::*;
use vstd::arithmetic::power2::{pow2, lemma2_to64, lemma_pow2_pos, lemma_pow2_strictly_increases};
use crate::bitfield::Bitfield;
use crate::bits::{flag, get_bit, get_bits};
use crate::field::{Field, SchemaError};
use crate::model::{bit_at, extract};
use crate::shift::{OverflowingShl, OverflowingShr};
use crate::word::Word;

verus! {

/// The unsigned integer types in which a field's bits can be stored.
#[derive(Clone, Copy, Debug, PartialEq, Eq, Structural)]
pub enum Storage {
    /// Eight bits.
    U8,
    /// Sixteen bits.
    U16,
    /// Thirty-two bits.
    U32,
    /// Sixty-four bits.
    U64,
    /// One hundred and twenty-eight bits.
    U128,
}

impl Storage {
    /// The number of bits of the storage type.
    pub open spec fn width(self) -> nat {
        match self {
            Storage::U8 => 8,
            Storage::U16 => 16,
            Storage::U32 => 32,
            Storage::U64 => 64,
            Storage::U128 => 128,
        }
    }

    /// The number of bits of the storage type.
    pub fn bits(self) -> (r: u8)
        ensures
            r == self.width(),
    {
        match self {
            Storage::U8 => 8,
            Storage::U16 => 16,
            Storage::U32 => 32,
            Storage::U64 => 64,
            Storage::U128 => 128,
        }
    }

    /// The narrowest storage type that holds `len` bits without loss, if there
    /// is one.
    pub open spec fn narrowest(len: nat) -> Option<Storage> {
        if len <= 8 {
            Some(Storage::U8)
        } else if len <= 16 {
            Some(Storage::U16)
        } else if len <= 32 {
            Some(Storage::U32)
        } else if len <= 64 {
            Some(Storage::U64)
        } else if len <= 128 {
            Some(Storage::U128)
        } else {
            None
        }
    }

    /// `narrowest` gives a type that holds `len` bits whenever one does, and
    /// then no other type that holds them is narrower.
    pub proof fn lemma_narrowest(len: nat, other: Storage)
        ensures
            match Self::narrowest(len) {
                Some(storage) => len <= storage.width() && (len <= other.width() ==> storage.width()
                    <= other.width()),
                None => len > other.width(),
            },
    {
    }

    /// The narrowest storage type that holds `len` bits without loss, if there
    /// is one.
    pub fn fitting(len: u8) -> (r: Option<Storage>)
        ensures
            r == Self::narrowest(len as nat),
    {
        if len <= 8 {
            Some(Storage::U8)
        } else if len <= 16 {
            Some(Storage::U16)
        } else if len <= 32 {
            Some(Storage::U32)
        } else if len <= 64 {
            Some(Storage::U64)
        } else if len <= 128 {
            Some(Storage::U128)
        } else {
            None
        }
    }
}

/// Where a declaration places its field.
#[derive(Clone, Copy, Debug, PartialEq, Eq, Structural)]
pub enum Position {
    /// A single bit, read and written as a `bool`.
    Bit(u8),
    /// The bits from the first position up to, and without, the second.
    Exclusive(u8, u8),
    /// The bits from the first position up to, and with, the second.
    Inclusive(u8, u8),
}

/// One declaration of a field, as a layout is built from.
#[derive(Clone, Copy, Debug)]
pub struct Declaration {
    /// The name under which the field is dumped.
    pub name: &'static str,
    /// The bits that the field covers.
    pub position: Position,
    /// The storage type; where none is given, the narrowest that fits.
    pub storage: Option<Storage>,
}

/// What a declaration turns into, once it has been validated.
#[derive(Clone, Copy, Debug)]
pub enum Kind {
    /// A flag: one bit, at this position.
    Flag(u8),
    /// A field of several bits with its storage type.
    Range(Field, Storage),
}

/// One validated field of a layout.
#[derive(Clone, Copy, Debug)]
pub struct Accessor {
    /// The name under which the field is dumped.
    pub name: &'static str,
    /// How the field is read.
    pub kind: Kind,
}

/// The storage type of a declared field of `len` bits: the declared one, or
/// else the narrowest that holds `len` bits, or the widest there is where
/// none holds them.
pub open spec fn storage_of(decl: Declaration, len: nat) -> Storage {
    match decl.storage {
        Some(storage) => storage,
        None => match Storage::narrowest(len) {
            Some(storage) => storage,
            None => Storage::U128,
        },
    }
}

/// Why a declaration is refused over an underlying value of `width` bits, or
/// `None` where it is accepted. A range that ends before it starts is
/// inverted; one without a bit is empty; a flag or a range that does not lie
/// inside the underlying value is out of bounds, and so is a range whose
/// included upper end is the last position that a `u8` can name.
pub open spec fn refusal(decl: Declaration, width: nat) -> Option<SchemaError> {
    match decl.position {
        Position::Bit(bit) => if bit < width {
            None
        } else {
            Some(SchemaError::OutOfBounds)
        },
        Position::Exclusive(lsb, msb) => if msb < lsb {
            Some(SchemaError::InvertedRange)
        } else if msb == lsb {
            Some(SchemaError::EmptyRange)
        } else if msb > width {
            Some(SchemaError::OutOfBounds)
        } else {
            None
        },
        Position::Inclusive(lsb, msb) => if msb < lsb {
            Some(SchemaError::InvertedRange)
        } else if msb >= width || msb == u8::MAX {
            Some(SchemaError::OutOfBounds)
        } else {
            None
        },
    }
}

/// Whether `accessor` is what the accepted declaration `decl` turns into: it
/// has the declared name, covers the declared bits, with an upper end that
/// was declared as included stepped past, and has the declared storage type
/// or, without one, the narrowest that fits.
pub open spec fn describes(decl: Declaration, accessor: Accessor) -> bool {
    &&& accessor.name == decl.name
    &&& match decl.position {
        Position::Bit(bit) => accessor.kind == Kind::Flag(bit),
        Position::Exclusive(lsb, msb) => {
            &&& accessor.kind matches Kind::Range(field, storage)
            &&& field.low() == lsb
            &&& field.high() == msb
            &&& storage == storage_of(decl, (msb - lsb) as nat)
        },
        Position::Inclusive(lsb, msb) => {
            &&& accessor.kind matches Kind::Range(field, storage)
            &&& field.low() == lsb
            &&& field.high() == msb + 1
            &&& storage == storage_of(decl, (msb + 1 - lsb) as nat)
        },
    }
}

/// Whether `accessor` can be applied to an underlying value of `width` bits.
pub open spec fn applies(accessor: Accessor, width: nat) -> bool {
    match accessor.kind {
        Kind::Flag(bit) => bit < width,
        Kind::Range(field, storage) => field.wf() && field.high() <= width,
    }
}

/// What `accessor` reads from the underlying value `raw`, as a value of the
/// underlying type: 1 or 0 for a flag that is set or not, and for a range its
/// bits, narrowed to the width of its storage type.
pub open spec fn reading<T: Word>(raw: T, accessor: Accessor) -> T {
    match accessor.kind {
        Kind::Flag(bit) => T::from_nat(flag(bit_at(raw.as_nat(), bit as nat))),
        Kind::Range(field, storage) => T::from_nat(
            extract(raw.as_nat(), field.low(), field.high()) % pow2(storage.width()),
        ),
    }
}

/// A value seen through a layout.
pub struct Dump<T> {
    /// The whole underlying value, so that the bits that no field covers can
    /// be seen too.
    pub value: T,
    /// The name and the current value of each field, in the order in which
    /// the fields were declared.
    pub fields: Vec<(&'static str, T)>,
}

/// The fields declared over the underlying type `T`, in the order of their
/// declaration. Each of them has been validated against `T`.
pub struct Layout<T: Word> {
    accessors: Vec<Accessor>,
    host: core::marker::PhantomData<T>,
}

impl<T: Word> View for Layout<T> {
    type V = Seq<Accessor>;

    closed spec fn view(&self) -> Seq<Accessor> {
        self.accessors@
    }
}

impl<T: Word> Layout<T> {
    /// Every field of a layout can be applied to the underlying type.
    #[verifier::type_invariant]
    spec fn inv(self) -> bool {
        forall|i: int| 0 <= i < self.accessors@.len() ==> applies(#[trigger] self.accessors@[i], T::width())
    }
}

impl<T: OverflowingShl + OverflowingShr> Layout<T> {
    /// Validates one declaration against the underlying type: gives the field
    /// that it describes, or the reason for which it is refused.
    pub fn validate(decl: Declaration) -> (r: Result<Accessor, SchemaError>)
        ensures
            match r {
                Ok(accessor) => refusal(decl, T::width()) is None && describes(decl, accessor)
                    && applies(accessor, T::width()),
                Err(e) => refusal(decl, T::width()) == Some(e),
            },
    {
        let kind = match decl.position {
            Position::Bit(bit) => {
                if (bit as u32) < T::bit_count() {
                    Kind::Flag(bit)
                } else {
                    return Err(SchemaError::OutOfBounds);
                }
            },
            Position::Exclusive(lsb, msb) => {
                let field = match Field::exclusive(lsb, msb) {
                    Ok(field) => field,
                    Err(e) => {
                        return Err(e);
                    },
                };
                if !field.fits::<T>() {
                    return Err(SchemaError::OutOfBounds);
                }
                Kind::Range(field, Self::storage(decl, field.len()))
            },
            Position::Inclusive(lsb, msb) => {
                if msb >= lsb && msb as u32 >= T::bit_count() {
                    return Err(SchemaError::OutOfBounds);
                }
                let field = match Field::inclusive(lsb, msb) {
                    Ok(field) => field,
                    Err(e) => {
                        return Err(e);
                    },
                };
                Kind::Range(field, Self::storage(decl, field.len()))
            },
        };
        Ok(Accessor { name: decl.name, kind })
    }

    /// The storage type of a declared field of `len` bits.
    fn storage(decl: Declaration, len: u8) -> (r: Storage)
        ensures
            r == storage_of(decl, len as nat),
    {
        match decl.storage {
            Some(storage) => storage,
            None => match Storage::fitting(len) {
                Some(storage) => storage,
                None => Storage::U128,
            },
        }
    }

    /// Builds the layout of the declarations `decls`. Every declaration is
    /// validated, in order, before there is a layout: the first one that is
    /// refused gives the error, and then no accessor is handed out.
    pub fn new(decls: &Vec<Declaration>) -> (r: Result<Layout<T>, SchemaError>)
        ensures
            match r {
                Ok(layout) => {
                    &&& layout@.len() == decls@.len()
                    &&& forall|i: int|
                        0 <= i < decls@.len() ==> refusal(#[trigger] decls@[i], T::width()) is None
                    &&& forall|i: int|
                        0 <= i < decls@.len() ==> describes(decls@[i], #[trigger] layout@[i])
                },
                Err(e) => exists|k: int|
                    {
                        &&& 0 <= k < decls@.len()
                        &&& refusal(#[trigger] decls@[k], T::width()) == Some(e)
                        &&& forall|i: int| 0 <= i < k ==> refusal(#[trigger] decls@[i], T::width()) is None
                    },
            },
    {
        let mut accessors: Vec<Accessor> = Vec::new();
        let mut k: usize = 0;
        while k < decls.len()
            invariant
                k <= decls@.len(),
                accessors@.len() == k,
                forall|i: int| 0 <= i < k ==> refusal(#[trigger] decls@[i], T::width()) is None,
                forall|i: int| 0 <= i < k ==> describes(decls@[i], #[trigger] accessors@[i]),
                forall|i: int| 0 <= i < k ==> applies(#[trigger] accessors@[i], T::width()),
            decreases decls@.len() - k,
        {
            match Self::validate(decls[k]) {
                Ok(accessor) => {
                    accessors.push(accessor);
                },
                Err(e) => {
                    return Err(e);
                },
            }
            k += 1;
        }
        Ok(Layout { accessors, host: core::marker::PhantomData })
    }

    /// The number of fields.
    pub fn len(&self) -> (r: usize)
        ensures
            r == self@.len(),
    {
        self.accessors.len()
    }

    /// The field declared at place `index`.
    pub fn accessor(&self, index: usize) -> (r: Accessor)
        requires
            index < self@.len(),
        ensures
            r == self@[index as int],
            applies(r, T::width()),
    {
        proof {
            use_type_invariant(self);
        }
        self.accessors[index]
    }

    /// What `accessor` reads from `raw`.
    pub fn read(raw: T, accessor: Accessor) -> (r: T)
        requires
            applies(accessor, T::width()),
        ensures
            r == reading(raw, accessor),
    {
        match accessor.kind {
            Kind::Flag(bit) => {
                let r = T::from_bool(get_bit(raw, bit));
                proof {
                    let n = flag(bit_at(raw.as_nat(), bit as nat));
                    lemma2_to64();
                    if 1 < T::width() {
                        lemma_pow2_strictly_increases(1, T::width());
                    }
                    T::lemma_from_nat(n);
                    r.lemma_as_nat_injective(T::from_nat(n));
                }
                r
            },
            Kind::Range(field, storage) => {
                let bits = get_bits(raw, field.lsb(), field.msb());
                let r = get_bits(bits, 0, storage.bits());
                proof {
                    let e = extract(raw.as_nat(), field.low(), field.high());
                    let n = e % pow2(storage.width());
                    lemma2_to64();
                    lemma_pow2_pos(storage.width());
                    r.lemma_as_nat_bounded();
                    T::lemma_from_nat(n);
                    r.lemma_as_nat_injective(T::from_nat(n));
                }
                r
            },
        }
    }

    /// The dump of a wrapper: its whole underlying value, and then each
    /// field's name and current value, in the order of declaration.
    pub fn dump<B: Bitfield<T>>(&self, host: &B) -> (r: Dump<T>)
        ensures
            r.value == host.raw(),
            r.fields@.len() == self@.len(),
            forall|i: int|
                0 <= i < self@.len() ==> (#[trigger] r.fields@[i]).0 == self@[i].name && r.fields@[i].1
                    == reading(host.raw(), self@[i]),
    {
        let raw = host.value();
        let mut fields: Vec<(&'static str, T)> = Vec::new();
        let mut k: usize = 0;
        while k < self.len()
            invariant
                k <= self@.len(),
                fields@.len() == k,
                forall|i: int|
                    0 <= i < k ==> (#[trigger] fields@[i]).0 == self@[i].name && fields@[i].1 == reading(
                        raw,
                        self@[i],
                    ),
            decreases self@.len() - k,
        {
            let accessor = self.accessor(k);
            fields.push((accessor.name, Self::read(raw, accessor)));
            k += 1;
        }
        Dump { value: raw, fields }
    }
}

} // verus!
