use tartan_bitfield::{
    get_bit, get_bits, set_bit, set_bits, OverflowingShl, OverflowingShr, TruncateInto, WidenInto,
    Word,
};

#[test]
fn get_bit_reads_a_single_bit() {
    assert_eq!(get_bit(0b0000_0100_u8, 2), true);
    assert_eq!(get_bit(0b0000_0100_u8, 3), false);
}

#[test]
fn get_bit_reads_the_top_bit_of_every_width() {
    assert!(get_bit(0x80_u8, 7));
    assert!(get_bit(0x8000_u16, 15));
    assert!(get_bit(0x8000_0000_u32, 31));
    assert!(get_bit(0x8000_0000_0000_0000_u64, 63));
    assert!(get_bit(1_u128 << 127, 127));
    assert!(get_bit(1_usize << (usize::BITS - 1), (usize::BITS - 1) as u8));
    assert!(!get_bit(0x7f_u8, 7));
    assert!(!get_bit(u128::MAX >> 1, 127));
}

#[test]
fn set_bit_changes_a_single_bit() {
    assert_eq!(set_bit(0b0000_0000_u8, 5, true), 0b0010_0000);
    assert_eq!(set_bit(0b1111_1111_u8, 0, false), 0b1111_1110);
}

#[test]
fn set_bit_keeps_a_bit_that_already_has_the_value() {
    assert_eq!(set_bit(0b0010_0000_u8, 5, true), 0b0010_0000);
    assert_eq!(set_bit(0b1101_1111_u8, 5, false), 0b1101_1111);
    assert_eq!(set_bit(0_u64, 63, true), 0x8000_0000_0000_0000);
    assert_eq!(set_bit(u128::MAX, 127, false), u128::MAX >> 1);
}

#[test]
fn get_bits_extracts_a_range() {
    assert_eq!(get_bits(0b1100_1110_u8, 3, 7), 0b1001);
    assert_eq!(get_bits(0b1010_0101_u8, 6, 8), 0b10);
}

#[test]
fn get_bits_of_the_whole_width_is_the_value() {
    assert_eq!(get_bits(0xa5_u8, 0, 8), 0xa5);
    assert_eq!(get_bits(0xbeef_u16, 0, 16), 0xbeef);
    assert_eq!(get_bits(0xdead_beef_u32, 0, 32), 0xdead_beef);
    assert_eq!(get_bits(u64::MAX, 0, 64), u64::MAX);
    assert_eq!(get_bits(u128::MAX - 5, 0, 128), u128::MAX - 5);
    assert_eq!(get_bits(usize::MAX - 1, 0, usize::BITS as u8), usize::MAX - 1);
}

#[test]
fn get_bits_beyond_the_width_saturates() {
    assert_eq!(get_bits(0xa5_u8, 0, 9), 0xa5);
    assert_eq!(get_bits(0xa5_u8, 4, 200), 0x0a);
    assert_eq!(get_bits(0xa5_u8, 8, 16), 0);
    assert_eq!(get_bits(0xa5_u8, 200, 255), 0);
    assert_eq!(get_bits(u128::MAX, 0, 129), u128::MAX);
    assert_eq!(get_bits(u128::MAX, 127, 255), 1);
}

#[test]
fn get_bits_of_an_empty_range_is_zero() {
    assert_eq!(get_bits(0xff_u8, 3, 3), 0);
    assert_eq!(get_bits(u32::MAX, 0, 0), 0);
}

#[test]
fn set_bits_replaces_a_range() {
    assert_eq!(set_bits(0b0000_0000_u8, 6, 8, 0b11), 0b1100_0000);
    assert_eq!(set_bits(0b1111_1111_u8, 1, 5, 0b0000), 0b1110_0001);
    assert_eq!(set_bits(0b1010_0110_u8, 2, 6, 0b1110), 0b1011_1010);
}

#[test]
fn set_bits_drops_what_does_not_fit_the_range() {
    assert_eq!(set_bits(0_u8, 2, 4, 0xff), 0b0000_1100);
    assert_eq!(set_bits(0xff_u8, 2, 4, 0xf0), 0b1111_0011);
}

#[test]
fn set_bits_of_the_whole_width_is_the_new_value() {
    assert_eq!(set_bits(0xa5_u8, 0, 8, 0x3c), 0x3c);
    assert_eq!(set_bits(0x1234_u16, 0, 16, 0xffff), 0xffff);
    assert_eq!(set_bits(7_u128, 0, 128, u128::MAX), u128::MAX);
    assert_eq!(set_bits(0xa5_u8, 0, 9, 0x3c), 0x3c);
}

#[test]
fn set_bits_of_an_empty_or_inverted_range_changes_nothing() {
    assert_eq!(set_bits(0xa5_u8, 3, 3, 0xff), 0xa5);
    assert_eq!(set_bits(0xa5_u8, 5, 2, 0xff), 0xa5);
    assert_eq!(set_bits(0xa5_u8, 8, 12, 0xff), 0xa5);
}

#[test]
fn set_bits_beyond_the_width_replaces_up_to_the_top() {
    assert_eq!(set_bits(0xa5_u8, 4, 12, 0xff), 0xf5);
    assert_eq!(set_bits(0xffff_u16, 12, 255, 0), 0x0fff);
}

#[test]
fn get_bit_agrees_with_the_range_of_one_bit() {
    let values = [0_u16, 1, 0x8000, 0xa5a5, 0xffff, 0x1234];
    for v in values {
        for n in 0..16_u8 {
            assert_eq!(get_bit(v, n), get_bits(v, n, n + 1) != 0);
        }
    }
}

#[test]
fn saturating_shifts_give_zero_from_the_width_on() {
    assert_eq!(0xff_u8.saturating_shl(7), 0x80);
    assert_eq!(0xff_u8.saturating_shl(8), 0);
    assert_eq!(0xff_u8.saturating_shl(9), 0);
    assert_eq!(0xff_u8.saturating_shl(u32::MAX), 0);
    assert_eq!(0xff_u8.saturating_shr(7), 1);
    assert_eq!(0xff_u8.saturating_shr(8), 0);
    assert_eq!(u128::MAX.saturating_shl(127), 1_u128 << 127);
    assert_eq!(u128::MAX.saturating_shl(128), 0);
    assert_eq!(u128::MAX.saturating_shr(127), 1);
    assert_eq!(u128::MAX.saturating_shr(128), 0);
    assert_eq!(u64::MAX.saturating_shl(64), 0);
    assert_eq!(u32::MAX.saturating_shr(32), 0);
    assert_eq!(u16::MAX.saturating_shl(16), 0);
    assert_eq!(usize::MAX.saturating_shl(usize::BITS), 0);
    assert_eq!(usize::MAX.saturating_shr(usize::BITS), 0);
}

#[test]
fn saturating_shifts_below_the_width_are_plain_shifts() {
    assert_eq!(0b0000_0101_u8.saturating_shl(0), 0b0000_0101);
    assert_eq!(0b0000_0101_u8.saturating_shl(3), 0b0010_1000);
    assert_eq!(0b1010_0000_u8.saturating_shr(5), 0b0000_0101);
    assert_eq!(0x1234_u16.saturating_shl(4), 0x2340);
    assert_eq!(0x1234_u16.saturating_shr(4), 0x0123);
}

#[test]
fn overflowing_shifts_wrap_the_count_and_say_so() {
    assert_eq!(OverflowingShl::overflowing_shl(0x01_u8, 7), (0x80, false));
    assert_eq!(OverflowingShl::overflowing_shl(0x01_u8, 8), (0x01, true));
    assert_eq!(OverflowingShl::overflowing_shl(0x01_u8, 9), (0x02, true));
    assert_eq!(OverflowingShr::overflowing_shr(0x80_u8, 7), (0x01, false));
    assert_eq!(OverflowingShr::overflowing_shr(0x80_u8, 8), (0x80, true));
    assert_eq!(OverflowingShr::overflowing_shr(0x80_u8, 10), (0x20, true));
    assert_eq!(OverflowingShl::overflowing_shl(1_u32, 33), (2, true));
    assert_eq!(OverflowingShr::overflowing_shr(4_u64, 65), (2, true));
}

#[test]
fn truncation_keeps_the_low_bits() {
    let a: u8 = 0x1234_5678_u32.truncate_into();
    assert_eq!(a, 0x78);
    let b: u16 = 0x1234_5678_u32.truncate_into();
    assert_eq!(b, 0x5678);
    let c: u32 = 0x1234_5678_u32.truncate_into();
    assert_eq!(c, 0x1234_5678);
    let d: u8 = 0xffff_ffff_ffff_ff01_u64.truncate_into();
    assert_eq!(d, 0x01);
    let e: u64 = (u128::MAX - 1).truncate_into();
    assert_eq!(e, u64::MAX - 1);
    let f: u8 = 0x0100_u16.truncate_into();
    assert_eq!(f, 0);
    let g: u16 = 0xabcd_ef01_usize.truncate_into();
    assert_eq!(g, 0xef01);
    let h: u64 = 77_usize.truncate_into();
    assert_eq!(h, 77);
    let i: u32 = 0x9abc_def0_usize.truncate_into();
    assert_eq!(i, 0x9abc_def0);
}

#[test]
fn widening_keeps_the_number() {
    let a: u16 = 0xff_u8.widen_into();
    assert_eq!(a, 0x00ff);
    let b: u128 = u64::MAX.widen_into();
    assert_eq!(b, 0xffff_ffff_ffff_ffff);
    let c: usize = 0xabcd_u16.widen_into();
    assert_eq!(c, 0xabcd);
    let d: u32 = 0x8000_0000_u32.widen_into();
    assert_eq!(d, 0x8000_0000);
}

#[test]
fn word_operations_on_plain_integers() {
    assert_eq!(<u8 as Word>::zero(), 0);
    assert_eq!(<u8 as Word>::from_bool(true), 1);
    assert_eq!(<u64 as Word>::from_bool(false), 0);
    assert_eq!(<u8 as Word>::bit_count(), 8);
    assert_eq!(<u16 as Word>::bit_count(), 16);
    assert_eq!(<u32 as Word>::bit_count(), 32);
    assert_eq!(<u64 as Word>::bit_count(), 64);
    assert_eq!(<u128 as Word>::bit_count(), 128);
    assert_eq!(<usize as Word>::bit_count(), usize::BITS);
    assert_eq!(0b1100_u8.bit_not(), 0b1111_0011);
    assert_eq!(0b1100_u8.bit_and(0b1010), 0b1000);
    assert_eq!(0b1100_u8.bit_or(0b1010), 0b1110);
    assert_eq!(Word::shl(0b0000_0011_u8, 7), 0b1000_0000);
    assert!(5_u32.equals(5));
    assert!(!5_u32.equals(6));
}
