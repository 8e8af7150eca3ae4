use calabi_bcs::{Deserializer, Error, MapKeyTracker, MAX_CONTAINER_DEPTH};

fn de(bytes: &[u8]) -> Deserializer<'_> {
    Deserializer::new(bytes, MAX_CONTAINER_DEPTH)
}

#[test]
fn uleb128_variants() {
    assert_eq!(de(&[1]).parse_variant_index(), Ok(1));
    assert_eq!(de(&[5]).parse_variant_index(), Ok(5));
    assert_eq!(de(&[0x80, 0x80, 0x80, 0x80]).parse_variant_index(), Err(Error::Eof));
    assert_eq!(
        de(&[0x80, 0x80, 0x80, 0x80, 0x80]).parse_variant_index(),
        Err(Error::IntegerOverflowDuringUleb128Decoding)
    );
    assert_eq!(
        de(&[0x80, 0x80, 0x80, 0x80, 0x1f]).parse_variant_index(),
        Err(Error::IntegerOverflowDuringUleb128Decoding)
    );
    assert_eq!(de(&[0x80, 0x80, 0x80, 0x80, 0x0f]).parse_variant_index(), Ok(4_026_531_840));
    assert_eq!(
        de(&[0x80, 0x80, 0x80, 0x00]).parse_variant_index(),
        Err(Error::NonCanonicalUleb128Encoding)
    );
    assert_eq!(de(&[0xff, 0xff, 0xff, 0xff, 0x0f]).parse_u32_from_uleb128(), Ok(u32::MAX));
    assert_eq!(de(&[0x80, 0x01]).parse_u32_from_uleb128(), Ok(128));
    assert_eq!(de(&[0x80, 0x00]).parse_u32_from_uleb128(), Err(Error::NonCanonicalUleb128Encoding));
    assert_eq!(de(&[0x00]).parse_u32_from_uleb128(), Ok(0));
    assert_eq!(de(&[]).parse_u32_from_uleb128(), Err(Error::Eof));
}

#[test]
fn uleb128_leaves_the_rest() {
    let mut d = de(&[0xc0, 0x84, 0x3d, 7]);
    assert_eq!(d.parse_u32_from_uleb128(), Ok(1_000_000));
    assert_eq!(d.remaining_input(), &[7]);
}

#[test]
fn lengths() {
    assert_eq!(de(&[0x80, 0x80, 0x80, 0x80, 0x08]).parse_length(), Err(Error::ExceededMaxLen(2_147_483_648)));
    assert_eq!(de(&[0xff, 0xff, 0xff, 0xff, 0x07]).parse_length(), Ok(2_147_483_647));
}

#[test]
fn decode_booleans_and_options() {
    assert_eq!(de(&[0]).parse_bool(), Ok(false));
    assert_eq!(de(&[1]).parse_bool(), Ok(true));
    assert_eq!(de(&[9]).parse_bool(), Err(Error::ExpectedBoolean));
    assert_eq!(de(&[]).parse_bool(), Err(Error::Eof));
    assert_eq!(de(&[5, 0]).parse_option_tag(), Err(Error::ExpectedOption));
    let mut d = de(&[1, 7]);
    assert_eq!(d.parse_option_tag(), Ok(true));
    assert_eq!(d.parse_u8(), Ok(7));
    assert_eq!(d.end(), Ok(()));
    assert_eq!(de(&[0]).parse_option_tag(), Ok(false));
}

#[test]
fn decode_integers() {
    let mut d = de(&[0xab, 0x34, 0x12, 0x04, 0x03, 0x02, 0x01]);
    assert_eq!(d.parse_u8(), Ok(0xab));
    assert_eq!(d.parse_u16(), Ok(0x1234));
    assert_eq!(d.parse_u32(), Ok(0x0102_0304));
    assert_eq!(d.end(), Ok(()));
    assert_eq!(de(&[0xff; 8]).parse_u64(), Ok(u64::MAX));
    assert_eq!(de(&[0xff; 8]).parse_i64(), Ok(-1));
    assert_eq!(de(&[0xfe, 0xff]).parse_i16(), Ok(-2));
    assert_eq!(de(&[0x80]).parse_i8(), Ok(i8::MIN));
    assert_eq!(de(&i32::MIN.to_le_bytes()).parse_i32(), Ok(i32::MIN));
    assert_eq!(de(&i128::MIN.to_le_bytes()).parse_i128(), Ok(i128::MIN));
    assert_eq!(de(&u128::MAX.to_le_bytes()).parse_u128(), Ok(u128::MAX));
    assert_eq!(de(&[1, 2, 3]).parse_u32(), Err(Error::Eof));
}

#[test]
fn bytes_and_strings() {
    let mut d = de(&[2, b'h', b'i', 4, 0, 1, 2, 3]);
    assert_eq!(d.parse_string(), Ok("hi"));
    assert_eq!(d.parse_bytes(), Ok(&[0u8, 1, 2, 3][..]));
    assert_eq!(d.end(), Ok(()));
    assert_eq!(de(&[1, 0xff]).parse_string(), Err(Error::Utf8));
    assert_eq!(de(&[5, 1, 2, 3, 4]).parse_bytes(), Err(Error::Eof));
    assert_eq!(de(&[0x05]).parse_bytes(), Err(Error::Eof));
    assert_eq!(de(&[0xc0, 0x84, 0x3d]).parse_bytes(), Err(Error::Eof));
    assert_eq!(de(&[0x90, 0x4e, b'h', b'i']).parse_string(), Err(Error::Eof));
    assert_eq!(de(&[0x02, 0x41, 0x42]).parse_bytes(), Ok(&[0x41u8, 0x42][..]));
}

#[test]
fn decode_leftover_bytes() {
    let mut d = de(&[5, 1, 2, 3, 4, 5, 6, 7, 8, 9, 10]);
    assert_eq!(d.parse_bytes(), Ok(&[1u8, 2, 3, 4, 5][..]));
    assert_eq!(d.end(), Err(Error::RemainingInput));
}

#[test]
fn peek_and_next() {
    let mut d = de(&[3, 4]);
    assert_eq!(d.peek(), Ok(3));
    assert_eq!(d.next(), Ok(3));
    assert_eq!(d.next(), Ok(4));
    assert_eq!(d.next(), Err(Error::Eof));
    assert_eq!(d.peek(), Err(Error::Eof));
}

#[test]
fn depth() {
    let mut d = Deserializer::new(&[], 1);
    assert_eq!(d.enter_named_container("List"), Ok(()));
    assert_eq!(d.enter_named_container("List"), Err(Error::ExceededContainerDepthLimit("List")));
    d.leave_named_container();
    assert_eq!(d.max_remaining_depth(), 1);
    assert_eq!(
        Deserializer::with_limit(&[], 501).err(),
        Some(Error::NotSupported("limit exceeds the max allowed depth 500"))
    );
    assert_eq!(Deserializer::with_limit(&[], 10).unwrap().max_remaining_depth(), 10);
}

#[test]
fn map_keys_must_increase() {
    let input = [4u8, 5, 5, 4];
    let mut keys = MapKeyTracker::new(3);
    assert!(keys.next_entry());
    assert_eq!(keys.record_key(&input[1..], &input[2..]), Ok(()));
    assert!(keys.next_entry());
    assert_eq!(keys.record_key(&input[2..], &input[3..]), Err(Error::NonCanonicalMap));

    let mut keys = MapKeyTracker::new(2);
    assert!(keys.next_entry());
    assert_eq!(keys.record_key(&input[0..], &input[1..]), Ok(()));
    assert!(keys.next_entry());
    assert_eq!(keys.record_key(&input[1..], &input[2..]), Ok(()));
    assert_eq!(keys.len(), 0);
    assert!(!keys.next_entry());
}
