use tartan_bitfield::layout::{Accessor, Declaration, Kind, Layout, Position, Storage};
use tartan_bitfield::{Bitfield, Packed, SchemaError};

fn declare(name: &'static str, position: Position) -> Declaration {
    Declaration { name, position, storage: None }
}

fn example() -> Vec<Declaration> {
    vec![
        declare("a", Position::Exclusive(0, 4)),
        declare("b", Position::Inclusive(6, 17)),
        declare("c", Position::Exclusive(16, 20)),
        declare("d", Position::Bit(25)),
        Declaration { name: "e", position: Position::Exclusive(26, 32), storage: Some(Storage::U8) },
    ]
}

#[test]
fn narrowest_storage_for_each_length() {
    assert_eq!(Storage::fitting(0), Some(Storage::U8));
    assert_eq!(Storage::fitting(1), Some(Storage::U8));
    assert_eq!(Storage::fitting(8), Some(Storage::U8));
    assert_eq!(Storage::fitting(9), Some(Storage::U16));
    assert_eq!(Storage::fitting(16), Some(Storage::U16));
    assert_eq!(Storage::fitting(17), Some(Storage::U32));
    assert_eq!(Storage::fitting(32), Some(Storage::U32));
    assert_eq!(Storage::fitting(33), Some(Storage::U64));
    assert_eq!(Storage::fitting(64), Some(Storage::U64));
    assert_eq!(Storage::fitting(65), Some(Storage::U128));
    assert_eq!(Storage::fitting(128), Some(Storage::U128));
    assert_eq!(Storage::fitting(129), None);
    assert_eq!(Storage::fitting(255), None);
}

#[test]
fn storage_widths() {
    assert_eq!(Storage::U8.bits(), 8);
    assert_eq!(Storage::U16.bits(), 16);
    assert_eq!(Storage::U32.bits(), 32);
    assert_eq!(Storage::U64.bits(), 64);
    assert_eq!(Storage::U128.bits(), 128);
}

#[test]
fn layout_keeps_the_order_of_declaration() {
    let layout: Layout<u32> = Layout::new(&example()).unwrap();
    assert_eq!(layout.len(), 5);
    let names: Vec<&str> = (0..layout.len()).map(|i| layout.accessor(i).name).collect();
    assert_eq!(names, vec!["a", "b", "c", "d", "e"]);
}

#[test]
fn layout_picks_the_narrowest_storage_where_none_is_given() {
    let layout: Layout<u32> = Layout::new(&example()).unwrap();
    match layout.accessor(0).kind {
        Kind::Range(field, storage) => {
            assert_eq!((field.lsb(), field.msb()), (0, 4));
            assert_eq!(storage, Storage::U8);
        }
        Kind::Flag(_) => panic!("a range was declared"),
    }
    match layout.accessor(1).kind {
        Kind::Range(field, storage) => {
            assert_eq!((field.lsb(), field.msb()), (6, 18));
            assert_eq!(storage, Storage::U16);
        }
        Kind::Flag(_) => panic!("a range was declared"),
    }
    match layout.accessor(3).kind {
        Kind::Flag(bit) => assert_eq!(bit, 25),
        Kind::Range(..) => panic!("a flag was declared"),
    }
}

#[test]
fn dump_holds_the_whole_value_and_every_field_in_order() {
    let layout: Layout<u32> = Layout::new(&example()).unwrap();
    let dump = layout.dump(&Packed::new(0xfa84_9e1b_u32));
    assert_eq!(dump.value, 0xfa84_9e1b);
    assert_eq!(
        dump.fields,
        vec![("a", 0xb), ("b", 0x278), ("c", 0x4), ("d", 1), ("e", 0x3e)]
    );
}

#[test]
fn dump_shows_a_difference_in_a_bit_that_no_field_covers() {
    let layout: Layout<u32> = Layout::new(&example()).unwrap();
    let one = layout.dump(&Packed::new(0xfa84_9e1b_u32));
    let other = layout.dump(&Packed::new(0xfa84_9e1b_u32 ^ (1 << 4)));
    assert_eq!(one.fields, other.fields);
    assert_ne!(one.value, other.value);
}

#[test]
fn dump_narrows_to_the_declared_storage() {
    let decls = vec![Declaration {
        name: "wide",
        position: Position::Exclusive(4, 20),
        storage: Some(Storage::U8),
    }];
    let layout: Layout<u32> = Layout::new(&decls).unwrap();
    assert_eq!(layout.dump(&Packed::new(0x00ab_cde0_u32)).fields, vec![("wide", 0xde)]);
}

#[test]
fn dump_of_an_empty_layout_holds_the_value_alone() {
    let layout: Layout<u8> = Layout::new(&Vec::new()).unwrap();
    assert_eq!(layout.len(), 0);
    let dump = layout.dump(&Packed::new(0x5a_u8));
    assert_eq!(dump.value, 0x5a);
    assert!(dump.fields.is_empty());
}

#[test]
fn read_gives_what_the_dump_shows() {
    let layout: Layout<u32> = Layout::new(&example()).unwrap();
    assert_eq!(Layout::<u32>::read(0xfa84_9e1b, layout.accessor(1)), 0x278);
    assert_eq!(Layout::<u32>::read(0xfa84_9e1b, layout.accessor(3)), 1);
    assert_eq!(Layout::<u32>::read(0, layout.accessor(3)), 0);
}

#[test]
fn inverted_range_is_refused() {
    let decls = vec![declare("a", Position::Exclusive(0, 4)), declare("bad", Position::Exclusive(7, 3))];
    assert_eq!(Layout::<u8>::new(&decls).err(), Some(SchemaError::InvertedRange));
    let decls = vec![declare("bad", Position::Inclusive(7, 3))];
    assert_eq!(Layout::<u8>::new(&decls).err(), Some(SchemaError::InvertedRange));
}

#[test]
fn empty_range_is_refused() {
    let decls = vec![declare("bad", Position::Exclusive(3, 3))];
    assert_eq!(Layout::<u8>::new(&decls).err(), Some(SchemaError::EmptyRange));
}

#[test]
fn field_outside_the_underlying_value_is_refused() {
    let decls = vec![declare("bad", Position::Exclusive(4, 9))];
    assert_eq!(Layout::<u8>::new(&decls).err(), Some(SchemaError::OutOfBounds));
    assert!(Layout::<u16>::new(&decls).is_ok());
    let decls = vec![declare("bad", Position::Inclusive(4, 8))];
    assert_eq!(Layout::<u8>::new(&decls).err(), Some(SchemaError::OutOfBounds));
    let decls = vec![declare("bad", Position::Bit(8))];
    assert_eq!(Layout::<u8>::new(&decls).err(), Some(SchemaError::OutOfBounds));
    let decls = vec![declare("top", Position::Bit(7)), declare("all", Position::Inclusive(0, 7))];
    assert!(Layout::<u8>::new(&decls).is_ok());
    let decls = vec![declare("bad", Position::Inclusive(0, 255))];
    assert_eq!(Layout::<u128>::new(&decls).err(), Some(SchemaError::OutOfBounds));
}

#[test]
fn first_refused_declaration_gives_the_error() {
    let decls = vec![
        declare("fine", Position::Bit(0)),
        declare("empty", Position::Exclusive(2, 2)),
        declare("inverted", Position::Exclusive(5, 1)),
    ];
    assert_eq!(Layout::<u8>::new(&decls).err(), Some(SchemaError::EmptyRange));
}

#[test]
fn single_declaration_is_validated_against_the_underlying_type() {
    let accessor: Accessor = Layout::<u64>::validate(declare("top", Position::Bit(63))).unwrap();
    assert_eq!(accessor.name, "top");
    assert_eq!(Layout::<u64>::validate(declare("top", Position::Bit(64))).err(), Some(SchemaError::OutOfBounds));
    assert_eq!(Layout::<u128>::validate(declare("top", Position::Bit(64))).map(|a| a.name), Ok("top"));
}
