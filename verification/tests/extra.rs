//! Concrete checks of the library's stated laws and edge cases: set-algebra
//! identities, index/bit correspondence, range and first-n construction,
//! highest-bit extraction, both codecs and their error cases.

use arctan_bitflags::{
    BitFlags128, BitFlags16, BitFlags32, BitFlags64, BitFlags8, DecodeError, ParseError,
};

#[test]
fn union_intersection_idempotent_all_widths() {
    let a8 = BitFlags8(0b1010_0110);
    assert_eq!(a8.union(a8), a8);
    assert_eq!(a8.intersection(a8), a8);

    let a16 = BitFlags16(0xBEEF);
    assert_eq!(a16.union(a16), a16);
    assert_eq!(a16.intersection(a16), a16);

    let a32 = BitFlags32(0xDEAD_BEEF);
    assert_eq!(a32.union(a32), a32);
    assert_eq!(a32.intersection(a32), a32);

    let a64 = BitFlags64(0x0123_4567_89AB_CDEF);
    assert_eq!(a64.union(a64), a64);
    assert_eq!(a64.intersection(a64), a64);

    let a128 = BitFlags128(u128::MAX - 12345);
    assert_eq!(a128.union(a128), a128);
    assert_eq!(a128.intersection(a128), a128);
}

#[test]
fn de_morgan_all_widths() {
    let a8 = BitFlags8(0b1100_0101);
    let b8 = BitFlags8(0b0110_1001);
    assert_eq!(a8.union(b8).complement(), a8.complement().intersection(b8.complement()));
    assert_eq!(a8.intersection(b8).complement(), a8.complement().union(b8.complement()));

    let a64 = BitFlags64(0xF0F0_F0F0_0F0F_0F0F);
    let b64 = BitFlags64(0x1234_5678_9ABC_DEF0);
    assert_eq!(a64.union(b64).complement(), a64.complement().intersection(b64.complement()));

    let a128 = BitFlags128(1 << 127 | 0xFFFF);
    let b128 = BitFlags128(1 << 64);
    assert_eq!(a128.union(b128).complement(), a128.complement().intersection(b128.complement()));
}

#[test]
fn containment_consistency() {
    let a = BitFlags16(0b0111);
    let b = BitFlags16(0b0011);
    assert!(a.contains(b));
    assert_eq!(a.union(b), a);

    let c = BitFlags16(0b1000);
    assert!(!a.contains(c));
    assert_ne!(a.union(c), a);

    let x = BitFlags128(0xFF00);
    let y = BitFlags128(0x0F00);
    assert_eq!(x.contains(y), x.union(y) == x);
    assert_eq!(y.contains(x), y.union(x) == y);
}

#[test]
fn index_bit_correspondence() {
    for i in 0..8 {
        let f = BitFlags8::from_index(i);
        assert!(f.bit_at_index(i));
        assert_eq!(f.count_ones(), 1);
    }
    for i in 0..128 {
        let f = BitFlags128::from_index(i);
        assert!(f.bit_at_index(i));
        assert_eq!(f.count_ones(), 1);
    }
}

#[test]
fn range_construction_exact_bits() {
    let r = BitFlags8::with_set_bit_range(2, 5);
    for i in 0..8 {
        assert_eq!(r.bit_at_index(i), 2 <= i && i <= 5);
    }
    assert_eq!(r, BitFlags8(0b0011_1100));
    assert_eq!(BitFlags8::with_set_bit_range(0, 7), BitFlags8::full());

    let r = BitFlags32::with_set_bit_range(8, 15);
    assert_eq!(r, BitFlags32(0x0000_FF00));

    let r = BitFlags64::with_set_bit_range(0, 63);
    assert_eq!(r, BitFlags64::full());

    let r = BitFlags64::with_set_bit_range(63, 63);
    assert_eq!(r, BitFlags64(1 << 63));

    let mut m = BitFlags16(0b1000_0000_0000_0001);
    m.set_bit_range(4, 7);
    assert_eq!(m, BitFlags16(0b1000_0000_1111_0001));
}

#[test]
fn first_n_set_exact_bits() {
    assert_eq!(BitFlags8::with_first_n_set(1), BitFlags8(1));
    assert_eq!(BitFlags8::with_first_n_set(8), BitFlags8::full());
    assert_eq!(BitFlags16::with_first_n_set(16), BitFlags16::full());
    assert_eq!(BitFlags32::with_first_n_set(9), BitFlags32(0b1_1111_1111));
    assert_eq!(BitFlags32::with_first_n_set(32), BitFlags32::full());
    assert_eq!(BitFlags64::with_first_n_set(64), BitFlags64::full());
    assert_eq!(BitFlags128::with_first_n_set(64), BitFlags128(u64::MAX as u128));
    assert_eq!(BitFlags128::with_first_n_set(128), BitFlags128::full());
}

#[test]
fn highest_bit_laws() {
    // empty in, empty out
    assert_eq!(BitFlags32(0).highest_set_bit(), BitFlags32(0));
    assert_eq!(BitFlags32(0).highest_set_bit_index(), None);

    // several bits set: the largest power of two at most the value remains
    assert_eq!(BitFlags8(0b1011_0101).highest_set_bit(), BitFlags8(0b1000_0000));
    assert_eq!(BitFlags16(0x8001).highest_set_bit(), BitFlags16(0x8000));
    assert_eq!(BitFlags64(u64::MAX).highest_set_bit(), BitFlags64(1 << 63));
    assert_eq!(BitFlags128(u128::MAX).highest_set_bit(), BitFlags128(1 << 127));
    assert_eq!(BitFlags128((1 << 99) + 17).highest_set_bit(), BitFlags128(1 << 99));

    // the index variant counts binary digits, one above the bit position
    assert_eq!(BitFlags8(1).highest_set_bit_index(), Some(1));
    assert_eq!(BitFlags64(1 << 63).highest_set_bit_index(), Some(64));
    assert_eq!(BitFlags128(1 << 127).highest_set_bit_index(), Some(128));
}

#[test]
fn complement_of_full_is_empty() {
    assert_eq!(BitFlags8::full().complement(), BitFlags8::empty());
    assert_eq!(BitFlags16::full().complement(), BitFlags16::empty());
    assert_eq!(BitFlags32::full().complement(), BitFlags32::empty());
    assert_eq!(BitFlags64::full().complement(), BitFlags64::empty());
    assert_eq!(BitFlags128::full().complement(), BitFlags128::empty());
}

#[test]
fn from_slice_order_and_duplicates() {
    assert_eq!(BitFlags8::from_slice(&[2, 4, 5]), BitFlags8(0b0011_0100));
    assert_eq!(BitFlags8::from_slice(&[5, 4, 2, 2, 4]), BitFlags8(0b0011_0100));
    assert_eq!(BitFlags64::from_slice(&[]), BitFlags64::empty());
    assert_eq!(BitFlags128::from_slice(&[127, 0]), BitFlags128(1 | (1 << 127)));
}

#[test]
fn binary_roundtrip_all_widths() {
    let mut offset = 0usize;
    let b = BitFlags8(0xAB).to_le_bytes();
    assert_eq!(b, vec![0xAB]);
    assert_eq!(BitFlags8::read_le_bytes(&mut offset, &b).unwrap(), BitFlags8(0xAB));

    let v16 = BitFlags16(0x1234);
    let b = v16.to_le_bytes();
    assert_eq!(b, vec![0x34, 0x12]);
    let mut offset = 0usize;
    assert_eq!(BitFlags16::read_le_bytes(&mut offset, &b).unwrap(), v16);
    assert_eq!(offset, 2);

    let v32 = BitFlags32(0x89AB_CDEF);
    let b = v32.to_le_bytes();
    assert_eq!(b, vec![0xEF, 0xCD, 0xAB, 0x89]);
    let mut offset = 0usize;
    assert_eq!(BitFlags32::read_le_bytes(&mut offset, &b).unwrap(), v32);

    let v64 = BitFlags64(u64::MAX - 1);
    let mut offset = 0usize;
    assert_eq!(BitFlags64::read_le_bytes(&mut offset, &v64.to_le_bytes()).unwrap(), v64);

    let v128 = BitFlags128(u128::MAX - 255);
    let b = v128.to_le_bytes();
    assert_eq!(b.len(), 16);
    let mut offset = 0usize;
    assert_eq!(BitFlags128::read_le_bytes(&mut offset, &b).unwrap(), v128);
    assert_eq!(offset, 16);
}

#[test]
fn binary_decode_insufficient_bytes() {
    let buf: Vec<u8> = vec![1, 2, 3];
    let mut offset = 2usize;
    assert_eq!(
        BitFlags16::read_le_bytes(&mut offset, &buf),
        Err(DecodeError { offset: 2, needed: 2, available: 3 })
    );
    assert_eq!(offset, 2, "a failed read must not move the offset");

    let mut offset = 0usize;
    assert_eq!(
        BitFlags32::read_le_bytes(&mut offset, &buf),
        Err(DecodeError { offset: 0, needed: 4, available: 3 })
    );

    let empty: Vec<u8> = Vec::new();
    let mut offset = 0usize;
    assert_eq!(
        BitFlags8::read_le_bytes(&mut offset, &empty),
        Err(DecodeError { offset: 0, needed: 1, available: 0 })
    );
}

#[test]
fn binary_decode_sequence_advances_offset() {
    let wire: Vec<u8> = vec![0x01, 0x00, 0xFF, 0xFF, 0x34, 0x12];
    let mut offset = 0usize;
    assert_eq!(BitFlags16::read_le_bytes(&mut offset, &wire).unwrap(), BitFlags16(1));
    assert_eq!(BitFlags16::read_le_bytes(&mut offset, &wire).unwrap(), BitFlags16(0xFFFF));
    assert_eq!(BitFlags16::read_le_bytes(&mut offset, &wire).unwrap(), BitFlags16(0x1234));
    assert_eq!(offset, 6);
    assert!(BitFlags16::read_le_bytes(&mut offset, &wire).is_err());
}

#[test]
fn text_roundtrip_all_widths() {
    assert_eq!(BitFlags8(0).to_decimal_string(), "0");
    assert_eq!(BitFlags8(255).to_decimal_string(), "255");
    assert_eq!(BitFlags8::from_decimal_str("255").unwrap(), BitFlags8(255));

    assert_eq!(BitFlags16(52).to_decimal_string(), "52");
    assert_eq!(BitFlags16::from_decimal_str("52").unwrap(), BitFlags16(52));

    let v = BitFlags64(18446744073709551615);
    assert_eq!(v.to_decimal_string(), "18446744073709551615");
    assert_eq!(BitFlags64::from_decimal_str("18446744073709551615").unwrap(), v);

    let v = BitFlags128(340282366920938463463374607431768211455);
    assert_eq!(v.to_decimal_string(), "340282366920938463463374607431768211455");
    assert_eq!(
        BitFlags128::from_decimal_str("340282366920938463463374607431768211455").unwrap(),
        v
    );
    assert_eq!(
        BitFlags128(18446744073709551616).to_decimal_string(),
        "18446744073709551616"
    );
}

#[test]
fn text_decode_errors() {
    assert_eq!(BitFlags8::from_decimal_str(""), Err(ParseError::Empty));
    assert_eq!(BitFlags8::from_decimal_str("12a"), Err(ParseError::InvalidDigit));
    assert_eq!(BitFlags8::from_decimal_str("-1"), Err(ParseError::InvalidDigit));
    assert_eq!(BitFlags8::from_decimal_str("+5"), Err(ParseError::InvalidDigit));
    assert_eq!(BitFlags8::from_decimal_str("1 2"), Err(ParseError::InvalidDigit));
    assert_eq!(BitFlags8::from_decimal_str("\u{661}"), Err(ParseError::InvalidDigit));
    assert_eq!(BitFlags8::from_decimal_str("256"), Err(ParseError::OutOfRange));
    assert_eq!(BitFlags16::from_decimal_str("65536"), Err(ParseError::OutOfRange));
    assert_eq!(BitFlags32::from_decimal_str("4294967296"), Err(ParseError::OutOfRange));
    assert_eq!(
        BitFlags64::from_decimal_str("18446744073709551616"),
        Err(ParseError::OutOfRange)
    );
    assert_eq!(
        BitFlags128::from_decimal_str("340282366920938463463374607431768211456"),
        Err(ParseError::OutOfRange)
    );
    // far over every width, more digits than any value can have
    assert_eq!(
        BitFlags128::from_decimal_str("9999999999999999999999999999999999999999999999"),
        Err(ParseError::OutOfRange)
    );
    // leading zeros are digits and read as the same value
    assert_eq!(BitFlags8::from_decimal_str("007").unwrap(), BitFlags8(7));
}

#[test]
fn binary_string_rendering() {
    assert_eq!(BitFlags8(0).to_binary_string(), "0b00000000");
    assert_eq!(BitFlags8(0b0011_0100).to_binary_string(), "0b00110100");
    assert_eq!(BitFlags16(1).to_binary_string(), "0b0000000000000001");
    assert_eq!(BitFlags16::full().to_binary_string(), "0b1111111111111111");
    assert_eq!(BitFlags32(1 << 31).to_binary_string().len(), 34);
    assert_eq!(BitFlags64(0).to_binary_string().len(), 66);
    let s = BitFlags128(1).to_binary_string();
    assert_eq!(s.len(), 130);
    assert!(s.starts_with("0b"));
    assert!(s.ends_with("1"));
}

#[test]
fn checked_index_queries() {
    let f = BitFlags32(0b100);
    assert_eq!(f.get_bit_at_index(2), Some(true));
    assert_eq!(f.get_bit_at_index(31), Some(false));
    assert_eq!(f.get_bit_at_index(32), None);
    assert_eq!(BitFlags64(0).get_bit_at_index(64), None);
    assert_eq!(BitFlags128(0).get_bit_at_index(128), None);
    assert_eq!(BitFlags8(0xFF).get_bit_at_index(8), None);
}

#[test]
fn num_bits_per_width() {
    assert_eq!(BitFlags8::num_bits(), 8);
    assert_eq!(BitFlags16::num_bits(), 16);
    assert_eq!(BitFlags32::num_bits(), 32);
    assert_eq!(BitFlags64::num_bits(), 64);
    assert_eq!(BitFlags128::num_bits(), 128);
}

#[test]
fn iteration_edges() {
    let mut it = BitFlags64(0).iter();
    assert_eq!(it.next(), None);
    assert_eq!(it.next(), None);

    let mut it = BitFlags16::full().iter();
    for expected in 0..16 {
        assert_eq!(it.next(), Some(expected));
    }
    assert_eq!(it.next(), None);

    let mut it = BitFlags128(1 << 127).iter();
    assert_eq!(it.next(), Some(127));
    assert_eq!(it.next(), None);
}

#[test]
fn raw_conversions_lossless() {
    assert_eq!(BitFlags8::from_u8(77).to_u8(), 77);
    assert_eq!(BitFlags16::from_u16(0xFFFF).to_u16(), 0xFFFF);
    assert_eq!(BitFlags32::from_u32(5).bits(), 5);
    assert_eq!(BitFlags64::from_u64(u64::MAX).to_u64(), u64::MAX);
    assert_eq!(BitFlags128::from_u128(u128::MAX).to_u128(), u128::MAX);
    assert_eq!(BitFlags8::from_bits(52), BitFlags8(52));
    assert!(BitFlags16::all().is_all());
    assert!(!BitFlags16(1).is_all());
}

#[test]
fn try_from_indexes() {
    assert_eq!(BitFlags16::try_from(3usize), Ok(BitFlags16(8)));
    assert!(BitFlags16::try_from(16usize).is_err());
    assert_eq!(BitFlags64::try_from(63u32), Ok(BitFlags64(1 << 63)));
    assert!(BitFlags64::try_from(64u32).is_err());
    assert_eq!(BitFlags128::try_from(127usize), Ok(BitFlags128(1 << 127)));
    assert!(BitFlags128::try_from(128usize).is_err());
    assert_eq!(BitFlags32::try_from(0usize), Ok(BitFlags32(1)));
    assert!(BitFlags32::try_from(32usize).is_err());
}
