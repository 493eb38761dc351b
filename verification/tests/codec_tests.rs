use asm_common::code::{InstCodeI4, InstCodeSlice};

#[test]
fn word_split_immediate_scenario() {
    // A 12-bit immediate split across the ranges [0,4) and [20,28) of a
    // word that starts at zero.
    let ranges = [0u32..4u32, 20u32..28u32];
    let packed = InstCodeI4(0).with(&ranges, 0xABC);
    assert_eq!(packed.0, 0x0AB0000C);
    let out: u32 = packed.extract(&ranges);
    assert_eq!(out, 0xABC);
}

#[test]
fn word_with_keeps_other_bits() {
    let ranges = [0u32..4u32, 20u32..28u32];
    let packed = InstCodeI4(0xFFFF_FFFF).with(&ranges, 0xABC);
    assert_eq!(packed.0, 0xFABF_FFFC);
    let packed = InstCodeI4(0x1234_5678).with(&ranges, 0xABC);
    assert_eq!(packed.0, 0x1AB4_567C);
    assert_eq!(packed.extract(&ranges), 0xABC);
}

#[test]
fn word_round_trip_masks_excess_value_bits() {
    // Total width 6: only the low 6 bits of the value survive the trip.
    let ranges = [3u32..6u32, 13u32..16u32];
    let packed = InstCodeI4(0).with(&ranges, 0xFFFF_FFFF);
    assert_eq!(packed.extract(&ranges), 0x3F);
}

#[test]
fn word_zero_width_range_is_noop() {
    let ranges = [7u32..7u32];
    let packed = InstCodeI4(0x55AA_55AA).with(&ranges, 0xFFFF_FFFF);
    assert_eq!(packed.0, 0x55AA_55AA);
    assert_eq!(packed.extract(&ranges), 0);
}

#[test]
fn word_single_full_range() {
    let ranges = [4u32..12u32];
    let packed = InstCodeI4(0).with(&ranges, 0xE7);
    assert_eq!(packed.0, 0xE7 << 4);
    assert_eq!(packed.extract(&ranges), 0xE7);
}

#[test]
fn buffer_round_trip_two_ranges() {
    let ranges = [0usize..2usize, 4usize..6usize];
    let buf = InstCodeSlice(vec![0xAA; 6]).with(&ranges, 0x1122_3344);
    assert_eq!(buf.0, vec![0x44, 0x33, 0xAA, 0xAA, 0x22, 0x11]);
    assert_eq!(buf.extract(&ranges), 0x1122_3344);
}

#[test]
fn buffer_whole_span() {
    let ranges = [0usize..8usize];
    let buf = InstCodeSlice(vec![0; 8]).with(&ranges, 0x0102_0304_0506_0708);
    assert_eq!(buf.0, vec![8, 7, 6, 5, 4, 3, 2, 1]);
    assert_eq!(buf.extract(&ranges), 0x0102_0304_0506_0708);
}

#[test]
fn buffer_extract_zero_pads_beyond_width() {
    let buf = InstCodeSlice(vec![0xFF, 0xFF, 0xFF]);
    let ranges = [1usize..2usize];
    assert_eq!(buf.extract(&ranges), 0xFF);
}

#[test]
fn buffer_with_masks_excess_value_bytes() {
    let ranges = [2usize..3usize];
    let buf = InstCodeSlice(vec![0; 4]).with(&ranges, 0xFFFF_FFFF_FFFF_FFFF);
    assert_eq!(buf.0, vec![0, 0, 0xFF, 0]);
    assert_eq!(buf.extract(&ranges), 0xFF);
}
