use tartan_bitfield::access::{
    get_field, get_field_as, get_flag, get_nested, set_field, set_field_as, set_flag, set_nested,
    with_field, with_field_as, with_flag, with_nested,
};
use tartan_bitfield::{Bitfield, Field, Packed, SchemaError};

#[derive(Clone, Copy, Debug, PartialEq, Eq)]
enum Mode {
    Idle,
    Run,
    Halt,
    Other(u8),
}

impl From<u8> for Mode {
    fn from(value: u8) -> Self {
        match value {
            0 => Mode::Idle,
            1 => Mode::Run,
            2 => Mode::Halt,
            n => Mode::Other(n),
        }
    }
}

impl From<Mode> for u8 {
    fn from(value: Mode) -> Self {
        match value {
            Mode::Idle => 0,
            Mode::Run => 1,
            Mode::Halt => 2,
            Mode::Other(n) => n,
        }
    }
}

fn range(lsb: u8, msb: u8) -> Field {
    Field::exclusive(lsb, msb).unwrap()
}

#[test]
fn exclusive_range_is_checked() {
    let field = Field::exclusive(3, 7).unwrap();
    assert_eq!(field.lsb(), 3);
    assert_eq!(field.msb(), 7);
    assert_eq!(field.len(), 4);
    assert_eq!(Field::exclusive(7, 3), Err(SchemaError::InvertedRange));
    assert_eq!(Field::exclusive(3, 3), Err(SchemaError::EmptyRange));
    assert_eq!(Field::exclusive(0, 0), Err(SchemaError::EmptyRange));
    assert!(Field::exclusive(0, 255).is_ok());
}

#[test]
fn inclusive_range_is_checked() {
    let field = Field::inclusive(6, 17).unwrap();
    assert_eq!(field.lsb(), 6);
    assert_eq!(field.msb(), 18);
    assert_eq!(field.len(), 12);
    let single = Field::inclusive(5, 5).unwrap();
    assert_eq!(single.lsb(), 5);
    assert_eq!(single.msb(), 6);
    assert_eq!(single.len(), 1);
    assert_eq!(Field::inclusive(7, 3), Err(SchemaError::InvertedRange));
    assert_eq!(Field::inclusive(3, 255), Err(SchemaError::OutOfBounds));
    assert_eq!(Field::inclusive(255, 255), Err(SchemaError::OutOfBounds));
}

#[test]
fn inclusive_and_exclusive_ranges_name_the_same_field() {
    assert_eq!(Field::inclusive(2, 5), Field::exclusive(2, 6));
}

#[test]
fn field_fits_and_overlaps() {
    assert!(range(0, 8).fits::<u8>());
    assert!(!range(0, 9).fits::<u8>());
    assert!(range(0, 9).fits::<u16>());
    assert!(range(120, 128).fits::<u128>());
    assert!(!range(120, 129).fits::<u128>());
    assert!(range(0, 4).overlaps(&range(3, 5)));
    assert!(range(3, 5).overlaps(&range(0, 4)));
    assert!(!range(0, 4).overlaps(&range(4, 8)));
    assert!(!range(4, 8).overlaps(&range(0, 4)));
    assert!(range(0, 8).overlaps(&range(2, 3)));
}

#[test]
fn eight_bit_scenario_with_overlapping_fields() {
    let a = range(0, 4);
    let c = range(4, 8);
    let w: Packed<u8> = Packed::new(0b1011_0110);
    assert_eq!(get_field::<u8, u8, _>(&w, a), 0b0110);
    assert_eq!(get_flag(&w, 4), true);
    assert_eq!(get_field::<u8, u8, _>(&w, c), 0b1011);
    let next = with_field(&w, a, 0b0000_u8);
    assert_eq!(next.value(), 0b1011_0000);
    assert_eq!(w.value(), 0b1011_0110);
}

#[test]
fn sixteen_bit_scenario_with_a_nested_field_over_the_whole_width() {
    let whole = range(0, 16);
    let mut w: Packed<u16> = Packed::new(0xbeef);
    let inner: Packed<u16> = get_nested::<u16, u16, Packed<u16>, _>(&w, whole);
    assert_eq!(inner.value(), w.value());
    assert_eq!(inner, Packed::new(0xbeef));
    let next = with_nested::<u16, u16, _, _>(&w, whole, Packed::new(0x1234_u16));
    assert_eq!(next.value(), 0x1234);
    assert_eq!(next, Packed::new(0x1234));
    set_nested::<u16, u16, _, _>(&mut w, whole, Packed::new(0xffff_u16));
    assert_eq!(w.value(), 0xffff);
    let inclusive = Field::inclusive(0, 15).unwrap();
    assert_eq!(get_field::<u16, u16, _>(&w, inclusive), 0xffff);
}

#[test]
fn round_trip_through_the_underlying_value() {
    for v in [0_u32, 1, 0xfa84_9e1b, u32::MAX] {
        let w: Packed<u32> = Packed::new(v);
        assert_eq!(w.value(), v);
        assert_eq!(Packed::new(w.value()), w);
    }
}

#[test]
fn getter_reads_back_what_the_with_builder_stored() {
    let field = range(6, 18);
    for raw in [0_u32, u32::MAX, 0xfa84_9e1b] {
        let w: Packed<u32> = Packed::new(raw);
        for x in [0_u16, 1, 0x278, 0xfff] {
            let next = with_field(&w, field, x);
            assert_eq!(get_field::<u32, u16, _>(&next, field), x);
        }
    }
}

#[test]
fn value_wider_than_the_field_is_narrowed() {
    let field = range(4, 6);
    let w: Packed<u8> = Packed::new(0);
    let next = with_field(&w, field, 0xff_u8);
    assert_eq!(next.value(), 0b0011_0000);
    assert_eq!(get_field::<u8, u8, _>(&next, field), 0b11);
}

#[test]
fn getter_narrows_to_the_storage_type() {
    let field = range(4, 20);
    let w: Packed<u32> = Packed::new(0x00ab_cde0);
    assert_eq!(get_field::<u32, u16, _>(&w, field), 0xbcde);
    assert_eq!(get_field::<u32, u8, _>(&w, field), 0xde);
    assert_eq!(get_field::<u32, u32, _>(&w, field), 0xbcde);
}

#[test]
fn writing_a_field_leaves_fields_beside_it_alone() {
    let a = range(0, 4);
    let b = range(6, 18);
    let c = range(20, 32);
    let w: Packed<u32> = Packed::new(0xfa84_9e1b);
    let next = with_field(&w, b, 0x0aaa_u16);
    assert_eq!(get_field::<u32, u8, _>(&next, a), get_field::<u32, u8, _>(&w, a));
    assert_eq!(get_field::<u32, u16, _>(&next, c), get_field::<u32, u16, _>(&w, c));
    assert_eq!(get_flag(&next, 5), get_flag(&w, 5));
    assert_eq!(get_flag(&next, 18), get_flag(&w, 18));
    assert_eq!(next.value() & !0x0003_ffc0, w.value() & !0x0003_ffc0);
    let flagged = with_flag(&w, 19, true);
    assert_eq!(get_field::<u32, u16, _>(&flagged, b), get_field::<u32, u16, _>(&w, b));
    assert_eq!(get_field::<u32, u16, _>(&flagged, c), get_field::<u32, u16, _>(&w, c));
    assert_eq!(get_flag(&flagged, 18), get_flag(&w, 18));
    assert_eq!(get_flag(&flagged, 19), true);
}

#[test]
fn writing_a_field_shows_in_the_fields_that_overlap_it() {
    let b = range(6, 18);
    let c = range(16, 20);
    let w: Packed<u32> = Packed::new(0);
    let next = with_field(&w, b, 0xfff_u16);
    assert_eq!(next.value(), 0x0003_ffc0);
    assert_eq!(get_field::<u32, u8, _>(&next, c), 0b0011);
    let again = with_field(&next, c, 0b1100_u8);
    assert_eq!(again.value(), 0x000c_ffc0);
    assert_eq!(get_field::<u32, u16, _>(&again, b), 0x3ff);
    assert_eq!(get_flag(&again, 17), false);
    assert_eq!(get_flag(&again, 18), true);
}

#[test]
fn equality_takes_in_the_bits_that_no_field_covers() {
    let a = range(0, 4);
    let x: Packed<u8> = Packed::new(0b0000_0110);
    let y: Packed<u8> = Packed::new(0b1000_0110);
    assert_eq!(get_field::<u8, u8, _>(&x, a), get_field::<u8, u8, _>(&y, a));
    assert_ne!(x, y);
    assert!(!x.same(y));
    assert!(x.same(Packed::new(0b0000_0110)));
}

#[test]
fn default_wrapper_is_zero() {
    let w: Packed<u64> = Packed::zeroed();
    assert_eq!(w.value(), 0);
    let d: Packed<u64> = Packed::default();
    assert_eq!(d, w);
}

#[test]
fn setters_are_with_builders_in_place() {
    let mut z: Packed<u32> = Packed::zeroed();
    set_field(&mut z, range(0, 4), 0xb_u8);
    set_field(&mut z, Field::inclusive(6, 17).unwrap(), 0x278_u16);
    set_field(&mut z, range(16, 20), 0x4_u8);
    set_flag(&mut z, 25, true);
    set_nested::<u32, u8, _, _>(&mut z, range(26, 32), Packed::new(0x3e_u8));
    assert_eq!(z, Packed::new(0xfa04_9e0b));
    let x: Packed<u32> = Packed::new(0xfa84_9e1b);
    assert_ne!(z, x);
}

#[test]
fn with_builders_chain_and_leave_the_receiver_alone() {
    let x: Packed<u32> = Packed::new(0xfa84_9e1b);
    let b = Field::inclusive(6, 17).unwrap();
    let step = with_field(&x, range(0, 4), 0x6_u8);
    let step = with_field(&step, b, 0x9f3_u16);
    let step = with_field(&step, range(16, 20), 0xd_u8);
    let step = with_flag(&step, 25, false);
    let w = with_nested::<u32, u8, _, _>(&step, range(26, 32), Packed::new(0x2b_u8));
    assert_eq!(w, Packed::new(0xac8d_7cd6));
    assert_eq!(x, Packed::new(0xfa84_9e1b));
}

#[test]
fn getters_of_the_thirty_two_bit_example() {
    let x: Packed<u32> = Packed::new(0xfa84_9e1b);
    assert_eq!(get_field::<u32, u8, _>(&x, range(0, 4)), 0xb);
    assert_eq!(get_field::<u32, u16, _>(&x, Field::inclusive(6, 17).unwrap()), 0x278);
    assert_eq!(get_field::<u32, u8, _>(&x, range(16, 20)), 0x4);
    assert_eq!(get_flag(&x, 25), true);
    let e: Packed<u8> = get_nested::<u32, u8, _, _>(&x, range(26, 32));
    assert_eq!(e, Packed::new(0x3e));
    assert_eq!(get_flag(&e, 0), false);
    assert_eq!(get_flag(&e, 5), true);
}

#[derive(Clone, Copy, Debug, PartialEq, Eq)]
struct SomeFields(u32);

#[derive(Clone, Copy, Debug, PartialEq, Eq)]
struct OtherFields(u32);

impl Bitfield<u32> for SomeFields {
    fn raw(self) -> u32 {
        self.0
    }

    fn wrap(value: u32) -> Self {
        SomeFields(value)
    }

    fn lemma_wrap_raw(self) {}

    fn lemma_raw_wrap(_value: u32) {}

    fn new(value: u32) -> Self {
        SomeFields(value)
    }

    fn value(self) -> u32 {
        self.0
    }
}

impl Bitfield<u32> for OtherFields {
    fn raw(self) -> u32 {
        self.0
    }

    fn wrap(value: u32) -> Self {
        OtherFields(value)
    }

    fn lemma_wrap_raw(self) {}

    fn lemma_raw_wrap(_value: u32) {}

    fn new(value: u32) -> Self {
        OtherFields(value)
    }

    fn value(self) -> u32 {
        self.0
    }
}

fn common_a<B: Bitfield<u32>>(host: &B) -> u8 {
    get_field::<u32, u8, B>(host, range(0, 6))
}

fn common_c<B: Bitfield<u32>>(host: &B) -> u16 {
    get_field::<u32, u16, B>(host, range(18, 32))
}

#[test]
fn shared_fields_read_the_same_from_either_wrapper() {
    let f = SomeFields(0xabcd_1234);
    assert_eq!(common_a(&f), 0x34);
    assert_eq!(get_flag(&f, 14), false);
    assert_eq!(get_flag(&f, 16), true);
    assert_eq!(common_c(&f), 0x2af3);
    let g = OtherFields(0xabcd_1234);
    assert_eq!(common_a(&g), 0x34);
    assert_eq!(get_flag(&g, 14), false);
    assert_eq!(get_flag(&g, 10), false);
    assert_eq!(common_c(&g), 0x2af3);
    let changed = with_field(&g, range(0, 6), 0x3f_u8);
    assert_eq!(changed, OtherFields(0xabcd_123f));
    assert_eq!(SomeFields::zeroed().value(), 0);
    assert!(f.same(SomeFields::new(g.value())));
}

#[test]
fn flags_are_read_and_written_as_booleans() {
    let mut w: Packed<u16> = Packed::zeroed();
    assert_eq!(get_flag(&w, 15), false);
    set_flag(&mut w, 15, true);
    assert_eq!(w.value(), 0x8000);
    assert_eq!(get_flag(&w, 15), true);
    let cleared = with_flag(&w, 15, false);
    assert_eq!(cleared.value(), 0);
    assert_eq!(w.value(), 0x8000);
}

#[test]
fn interface_type_is_converted_both_ways() {
    let field = range(2, 5);
    let mut w: Packed<u8> = Packed::new(0b0000_1000);
    assert_eq!(get_field_as::<u8, u8, Mode, _>(&w, field), Mode::Halt);
    let next = with_field_as::<u8, u8, Mode, _>(&w, field, Mode::Run);
    assert_eq!(next.value(), 0b0000_0100);
    assert_eq!(get_field_as::<u8, u8, Mode, _>(&next, field), Mode::Run);
    set_field_as::<u8, u8, Mode, _>(&mut w, field, Mode::Other(7));
    assert_eq!(w.value(), 0b0001_1100);
    assert_eq!(get_field_as::<u8, u8, Mode, _>(&w, field), Mode::Other(7));
    set_field_as::<u8, u8, Mode, _>(&mut w, field, Mode::Idle);
    assert_eq!(w.value(), 0);
}

#[test]
fn field_that_reaches_beyond_the_value_reads_zeros_there() {
    let field = range(4, 12);
    let w: Packed<u8> = Packed::new(0xa5);
    assert_eq!(get_field::<u8, u8, _>(&w, field), 0x0a);
    let next = with_field(&w, field, 0xff_u8);
    assert_eq!(next.value(), 0xf5);
    assert_eq!(get_field::<u8, u8, _>(&next, field), 0x0f);
}
