use blaster::endian::{u32_from_le, u32_to_le};

#[test]
fn least_significant_byte_comes_first() {
    assert_eq!(u32_to_le(0x01020304), vec![4, 3, 2, 1]);
    assert_eq!(u32_from_le(&[4, 3, 2, 1]), 0x01020304);
}

#[test]
fn encoding_and_reading_back_agree() {
    for x in [0u32, 1, 255, 256, 65_535, 65_536, 0x7fff_ffff, u32::MAX] {
        assert_eq!(u32_from_le(&u32_to_le(x)), x);
        assert_eq!(u32_to_le(x), x.to_le_bytes().to_vec());
    }
    for bytes in [[0u8; 4], [255; 4], [1, 0, 0, 2]] {
        assert_eq!(u32_to_le(u32_from_le(&bytes)), bytes.to_vec());
    }
}
