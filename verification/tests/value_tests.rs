use asm_common::mem::{MemorySize, MemorySized};
use asm_common::ops::{Arith, Cmp, Endian, Ext, Sign};
use asm_common::reg::Reg;
use asm_common::value::{Bitness, Constant, LoadStoreFrame, Value};

#[test]
fn constant_byte_round_trip_64_bits() {
    let b = Bitness { log2: 6 };
    let input = [1u8, 2, 3, 4, 5, 6, 7, 8];
    let c = Constant::from_bytes(b, &input).unwrap();
    assert_eq!(c.bytes(b), vec![1, 2, 3, 4, 5, 6, 7, 8]);
    assert_eq!(c.data[0], 0x0807_0605_0403_0201);
    assert_eq!(c.data[1..], [0, 0, 0, 0, 0, 0, 0]);
}

#[test]
fn constant_bit_round_trip_8_bits() {
    let b = Bitness { log2: 3 };
    let ones = [true; 8];
    let c = Constant::from_bits(b, &ones).unwrap();
    assert_eq!(c.bits(b), vec![true; 8]);
    assert_eq!(c.bytes(b), vec![0xFF]);
}

#[test]
fn constant_bits_are_lsb_first() {
    let b = Bitness { log2: 3 };
    // 0b0100_1101 = 0x4D, LSB first.
    let pattern = [true, false, true, true, false, false, true, false];
    let c = Constant::from_bits(b, &pattern).unwrap();
    assert_eq!(c.bytes(b), vec![0x4D]);
    assert_eq!(c.bits(b), pattern.to_vec());
}

#[test]
fn constant_from_bytes_rejects_short_input() {
    let b = Bitness { log2: 6 };
    assert!(Constant::from_bytes(b, &[1, 2, 3]).is_none());
    let b8 = Bitness { log2: 3 };
    assert!(Constant::from_bytes(b8, &[]).is_none());
}

#[test]
fn constant_from_bits_rejects_short_input() {
    let b = Bitness { log2: 4 };
    assert!(Constant::from_bits(b, &[true; 15]).is_none());
}

#[test]
fn constant_from_bytes_ignores_extra_input() {
    let b = Bitness { log2: 3 };
    let c = Constant::from_bytes(b, &[0x7E, 0x99, 0xAA]).unwrap();
    assert_eq!(c.bytes(b), vec![0x7E]);
    assert_eq!(c.data, [0x7E, 0, 0, 0, 0, 0, 0, 0]);
}

#[test]
fn constant_full_width_round_trip() {
    let b = Bitness { log2: 9 };
    let input: Vec<u8> = (0..64u8).collect();
    let c = Constant::from_bytes(b, input.as_slice()).unwrap();
    assert_eq!(c.bytes(b), input);
    assert_eq!(c.bits(b).len(), 512);
    let again = Constant::from_bits(b, c.bits(b).as_slice()).unwrap();
    assert_eq!(again, c);
}

#[test]
fn constant_16_bit_views_agree() {
    let b = Bitness { log2: 4 };
    let c = Constant::from_bytes(b, &[0x0F, 0xF0]).unwrap();
    let bits = c.bits(b);
    assert_eq!(bits.len(), 16);
    assert_eq!(&bits[0..8], &[true, true, true, true, false, false, false, false]);
    assert_eq!(&bits[8..16], &[false, false, false, false, true, true, true, true]);
    let again = Constant::from_bits(b, bits.as_slice()).unwrap();
    assert_eq!(again.bytes(b), vec![0x0F, 0xF0]);
}

#[test]
fn reg_normalizes_modulo_32() {
    assert_eq!(Reg(35).r32(), Reg(3));
    assert_eq!(Reg(0).r32(), Reg(0));
    assert_eq!(Reg(31).r32(), Reg(31));
    assert_eq!(Reg(255).r32(), Reg(31));
}

#[test]
fn reg_swaps_0_and_31() {
    assert_eq!(Reg(0).r32_swap_0_and_31(), Reg(31));
    assert_eq!(Reg(31).r32_swap_0_and_31(), Reg(0));
    assert_eq!(Reg(5).r32_swap_0_and_31(), Reg(5));
    assert_eq!(Reg(32).r32_swap_0_and_31(), Reg(31));
    assert_eq!(Reg::ctx(), Reg(255));
}

#[test]
fn value_map_keeps_bitness() {
    let v = Value { offset: Reg(7), bitness: Bitness { log2: 6 } };
    let mapped: Result<Value<u8>, ()> = v.map(|r: Reg| Ok(r.0));
    assert_eq!(mapped.unwrap(), Value { offset: 7u8, bitness: Bitness { log2: 6 } });
    let failed: Result<Value<u8>, &str> = v.map(|_r: Reg| Err("no"));
    assert_eq!(failed.unwrap_err(), "no");
}

#[test]
fn value_as_ref_borrows_offset() {
    let v = Value { offset: Reg(9), bitness: Bitness { log2: 5 } };
    let b = v.as_ref();
    assert_eq!(*b.offset, Reg(9));
    assert_eq!(b.bitness, Bitness { log2: 5 });
}

#[test]
fn frame_map_touches_only_value_offsets() {
    let frame = LoadStoreFrame::Value {
        bits: Bitness { log2: 6 },
        val: Value { offset: Reg(3), bitness: Bitness { log2: 6 } },
        bit_offset: 16,
    };
    let mapped: Result<LoadStoreFrame<u8>, ()> = frame.map(|r: Reg| Ok(r.0));
    assert_eq!(mapped.unwrap(), LoadStoreFrame::Value {
        bits: Bitness { log2: 6 },
        val: Value { offset: 3u8, bitness: Bitness { log2: 6 } },
        bit_offset: 16,
    });

    let konst = LoadStoreFrame::<Reg>::Constant {
        bits: Bitness { log2: 6 },
        constant: Constant { data: [42, 0, 0, 0, 0, 0, 0, 0] },
    };
    let mapped: Result<LoadStoreFrame<u8>, ()> = konst.map(|r: Reg| Ok(r.0));
    assert_eq!(mapped.unwrap(), LoadStoreFrame::Constant {
        bits: Bitness { log2: 6 },
        constant: Constant { data: [42, 0, 0, 0, 0, 0, 0, 0] },
    });
    let failed: Result<LoadStoreFrame<u8>, &str> = konst.map(|_r: Reg| Err("unused"));
    assert!(failed.is_ok());
}

#[test]
fn frame_as_ref_mirrors_the_frame() {
    let frame = LoadStoreFrame::Value {
        bits: Bitness { log2: 5 },
        val: Value { offset: Reg(11), bitness: Bitness { log2: 5 } },
        bit_offset: 4,
    };
    match frame.as_ref() {
        LoadStoreFrame::Value { bits, val, bit_offset } => {
            assert_eq!(bits, Bitness { log2: 5 });
            assert_eq!(*val.offset, Reg(11));
            assert_eq!(bit_offset, 4);
        },
        LoadStoreFrame::Constant { .. } => panic!("wrong variant"),
    }
}

#[test]
fn memory_size_default_is_64() {
    assert_eq!(MemorySize::default(), MemorySize::_64);
    let tagged = MemorySized { value: 0x1234_5678u32, size: MemorySize::_32 };
    assert_eq!(tagged.size, MemorySize::_32);
}

#[test]
fn tag_enums_compare() {
    assert_eq!(Arith::Div(Sign::Signed), Arith::Div(Sign::Signed));
    assert_ne!(Arith::Div(Sign::Signed), Arith::Div(Sign::Unsigned));
    assert_ne!(Arith::Add, Arith::Sub);
    assert_eq!(Endian::Little, Endian::Little);
    assert_ne!(Endian::Little, Endian::Big);
    assert_eq!(Ext::Zero, Ext::Zero);
    assert_ne!(Ext::Sign, Ext::Zero);
    assert_eq!(Cmp::Lt(Sign::Signed), Cmp::Lt(Sign::Signed));
    assert_ne!(Cmp::Eq, Cmp::Ne);
}
