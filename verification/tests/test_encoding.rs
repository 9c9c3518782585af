use arcstring::{big_endian, little_endian, MAX_SSO_LEN};

#[test]
fn big_endian_encodes_short_strings() {
	let image = big_endian::try_encode_sso("abc").unwrap();
	assert_eq!(image, [b'a', b'b', b'c', 0xFF, 0xFF, 0xFF, 0xFF, 0xFF]);
	assert_eq!(big_endian::word(&image), 0x6162_63FF_FFFF_FFFF);
	assert_eq!(big_endian::decode(&image), "abc");
	assert_eq!(big_endian::as_ptr(big_endian::word(&image)), None);
}

#[test]
fn big_endian_full_and_empty_words() {
	let full = big_endian::try_encode_sso("12345678").unwrap();
	assert_eq!(big_endian::word(&full), 0x3132_3334_3536_3738);
	assert_eq!(big_endian::decode(&full), "12345678");
	let empty = big_endian::try_encode_sso("").unwrap();
	assert_eq!(big_endian::word(&empty), big_endian::EMPTY);
	assert_eq!(big_endian::decode(&empty), "");
	let two = big_endian::try_encode_sso("二").unwrap();
	assert_eq!(big_endian::decode(&two), "二");
}

#[test]
fn big_endian_refuses_what_does_not_fit() {
	assert_eq!(big_endian::try_encode_sso("123456789"), None);
	assert_eq!(big_endian::try_encode_sso("\0\0\0\0\0\0\0\0"), None);
	assert!(big_endian::try_encode_sso("\0\0\0\0\0\0\0").is_some());
	assert!(big_endian::try_encode_sso("\0\0\0\0\0\0\0x").is_some());
}

#[test]
fn big_endian_pointer_tags() {
	let p: u64 = 0x0000_7f12_3456_7890;
	let boxed = big_endian::encode_ptr(p);
	assert_eq!(boxed & big_endian::TAG_BITS, big_endian::BOXED_TAG);
	assert_eq!(big_endian::as_ptr(boxed), Some(p));
	assert_eq!(big_endian::decode_ptr(boxed), p);
	assert_eq!(big_endian::as_static(boxed), None);
	let literal = big_endian::encode_literal(p);
	assert_eq!(big_endian::as_ptr(literal), None);
	assert_eq!(big_endian::as_static(literal), Some(p));
	assert_eq!(big_endian::decode_ptr(literal), p);
	let high: u64 = 0xFFFF_FFFF_FFFF_FFF8;
	assert_eq!(big_endian::as_ptr(big_endian::encode_ptr(high)), Some(high));
}

#[test]
fn little_endian_encodes_short_strings() {
	let image = little_endian::try_encode_sso("abc").unwrap();
	assert_eq!(image, [b'a', b'b', b'c', 0xFF, 0xFF, 0xFF, 0xFF, 0xFF]);
	assert_eq!(little_endian::word(&image), 0xFFFF_FFFF_FF63_6261);
	assert_eq!(little_endian::decode(&image), "abc");
	assert_eq!(little_endian::as_ptr(little_endian::word(&image)), None);
	let empty = little_endian::try_encode_sso("").unwrap();
	assert_eq!(little_endian::word(&empty), little_endian::EMPTY);
	assert_eq!(little_endian::decode(&empty), "");
	let full = little_endian::try_encode_sso("ヤミ").unwrap();
	assert_eq!(little_endian::decode(&full), "ヤミ");
	assert_eq!(little_endian::try_encode_sso("\0\0\0\0\0\0\0\0"), None);
	assert_eq!(little_endian::try_encode_sso("123456789"), None);
}

#[test]
fn little_endian_pointer_tags() {
	let p: u64 = 0x0000_7f12_3456_7890;
	let boxed = little_endian::encode_ptr(p);
	assert_eq!(boxed & little_endian::HIGH_BITS, little_endian::BOXED_TAG);
	assert_eq!(little_endian::as_ptr(boxed), Some(p));
	assert_eq!(little_endian::as_ptr(0x1234), None);
}

#[test]
fn inline_capacity_is_one_word() {
	assert_eq!(MAX_SSO_LEN, std::mem::size_of::<usize>());
}
