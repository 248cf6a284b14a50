use bankai_hints::felt::Felt;
use bankai_hints::memory::{Memory, MemoryAddress};
use bankai_hints::scalars::{to_uint256, u64_to_uint256, UInt384, Uint256, Uint256Bits32};

#[test]
fn felt_roundtrip() {
    let mut mem = Memory::new();
    let base = mem.add_segment();
    let f = Felt { lo: 42, hi: 7 };
    let next = f.to_memory(&mut mem, base).unwrap();
    assert_eq!(next, MemoryAddress { segment: base.segment, offset: 1 });
    assert_eq!(Felt::from_memory(&mem, base), Some(f));
}

#[test]
fn uint256_roundtrip() {
    let mut mem = Memory::new();
    let base = mem.add_segment();
    let v = Uint256 { low: 0xdeadbeef, high: 0x1234 };
    let next = v.to_memory(&mut mem, base).unwrap();
    assert_eq!(next.offset, base.offset + Uint256::n_fields());
    assert_eq!(Uint256::from_memory(&mem, base), Some(v));
}

#[test]
fn uint384_roundtrip() {
    let mut mem = Memory::new();
    let base = mem.add_segment();
    let v = UInt384::from_limbs(1, 2, 3, 4);
    let next = v.to_memory(&mut mem, base).unwrap();
    assert_eq!(next.offset, base.offset + UInt384::n_fields());
    assert_eq!(UInt384::from_memory(&mem, base), Some(v));
}

#[test]
fn uint256bits32_roundtrip() {
    let mut mem = Memory::new();
    let base = mem.add_segment();
    let mut bytes = [0u8; 32];
    bytes[0] = 0xab;
    bytes[31] = 0xcd;
    let v = Uint256Bits32::from_bytes_be(&bytes);
    let next = v.to_memory(&mut mem, base).unwrap();
    assert_eq!(next.offset, base.offset + Uint256Bits32::n_fields());
    assert_eq!(Uint256Bits32::from_memory(&mem, base), Some(v));
}

#[test]
fn uint256_from_bytes_be_exact() {
    let mut bytes = [0u8; 32];
    bytes[31] = 7;
    let v = Uint256::from_bytes_be(&bytes);
    assert_eq!(v, Uint256 { low: 7, high: 0 });

    let mut bytes2 = [0u8; 32];
    bytes2[0] = 1;
    let v2 = Uint256::from_bytes_be(&bytes2);
    assert_eq!(v2, Uint256 { low: 0, high: 1 << 120 });

    let mut bytes3 = [0u8; 32];
    bytes3[15] = 2;
    bytes3[16] = 3;
    let v3 = Uint256::from_bytes_be(&bytes3);
    assert_eq!(v3, Uint256 { low: 3 << 120, high: 2 });
}

#[test]
fn to_uint256_pads_left() {
    let addr20 = [0x11u8; 20];
    let v = to_uint256(&addr20);
    // 20 bytes: the top 4 land in the high limb, the lower 16 in the low limb.
    let mut expect_high: u128 = 0;
    for _ in 0..4 {
        expect_high = expect_high * 256 + 0x11;
    }
    assert_eq!(v.high, expect_high);
    assert_eq!(v.low, u128::from_be_bytes([0x11; 16]));

    let one = [9u8; 1];
    assert_eq!(to_uint256(&one), Uint256 { low: 9, high: 0 });
}

#[test]
fn u64_extension_is_little_endian_in_high_limb() {
    // Byte 0 of the 32-byte value is the integer's lowest-order byte.
    let v = u64_to_uint256(1);
    assert_eq!(v, Uint256 { low: 0, high: 1 << 120 });

    let v2 = u64_to_uint256(0x0102030405060708);
    assert_eq!(v2, Uint256 { low: 0, high: 0x0807060504030201u128 << 64 });

    let v3 = u64_to_uint256(0);
    assert_eq!(v3, Uint256 { low: 0, high: 0 });
}

#[test]
fn uint384_from_bytes_be_exact() {
    let mut bytes = [0u8; 48];
    bytes[47] = 5;
    bytes[35] = 6;
    let v = UInt384::from_bytes_be(&bytes);
    assert_eq!(v.d0, 5);
    assert_eq!(v.d1, 6);
    assert_eq!(v.d2, 0);
    assert_eq!(v.d3, 0);

    let mut bytes2 = [0u8; 48];
    bytes2[0] = 0xff;
    let v2 = UInt384::from_bytes_be(&bytes2);
    assert_eq!(v2.d3, 0xffu128 << 88);
}

#[test]
fn uint256bits32_words_are_big_endian() {
    let mut bytes = [0u8; 32];
    bytes[0] = 0x01;
    bytes[1] = 0x02;
    bytes[2] = 0x03;
    bytes[3] = 0x04;
    bytes[28] = 0xaa;
    bytes[31] = 0xbb;
    let v = Uint256Bits32::from_bytes_be(&bytes);
    assert_eq!(v.w0, 0x01020304);
    assert_eq!(v.w1, 0);
    assert_eq!(v.w7, 0xaa0000bb);
}
