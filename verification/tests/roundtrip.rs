use calabi_bcs::{assert_canonical_encode_decode, Deserializer, Error, Serializer, MAX_CONTAINER_DEPTH};

#[test]
fn uleb128_roundtrip() {
    for v in [0u32, 1, 127, 128, 255, 300, 16383, 16384, 1 << 21, 1 << 28, u32::MAX] {
        let mut s = Serializer::new(Vec::new(), MAX_CONTAINER_DEPTH);
        s.output_u32_as_uleb128(v);
        s.serialize_u8(0xee);
        let bytes = s.into_output();
        let mut d = Deserializer::new(&bytes, MAX_CONTAINER_DEPTH);
        assert_eq!(d.parse_u32_from_uleb128(), Ok(v));
        assert_eq!(d.remaining_input(), &[0xee]);
    }
}

#[test]
fn integer_roundtrip() {
    let mut s = Serializer::new(Vec::new(), MAX_CONTAINER_DEPTH);
    s.serialize_i16(-300);
    s.serialize_u64(0x1234_5678_90ab_cdef);
    s.serialize_i128(-1);
    s.serialize_bool(true);
    s.serialize_str("hello").unwrap();
    let bytes = s.into_output();
    let mut d = Deserializer::new(&bytes, MAX_CONTAINER_DEPTH);
    assert_eq!(d.parse_i16(), Ok(-300));
    assert_eq!(d.parse_u64(), Ok(0x1234_5678_90ab_cdef));
    assert_eq!(d.parse_i128(), Ok(-1));
    assert_eq!(d.parse_bool(), Ok(true));
    assert_eq!(d.parse_string(), Ok("hello"));
    assert_eq!(d.end(), Ok(()));
}

fn encode_u32(v: &u32) -> Result<Vec<u8>, Error> {
    let mut s = Serializer::new(Vec::new(), MAX_CONTAINER_DEPTH);
    s.serialize_u32(*v);
    Ok(s.into_output())
}

fn decode_u32(bytes: &Vec<u8>) -> Result<u32, Error> {
    let mut d = Deserializer::new(bytes, MAX_CONTAINER_DEPTH);
    let v = d.parse_u32()?;
    d.end()?;
    Ok(v)
}

#[test]
fn canonical_encode_decode_helper() {
    assert_eq!(assert_canonical_encode_decode(&42u32, encode_u32, decode_u32), Ok(42));
    assert_eq!(
        assert_canonical_encode_decode(&42u32, |_: &u32| Err(Error::MissingLen), decode_u32),
        Err(Error::MissingLen)
    );
    assert_eq!(
        assert_canonical_encode_decode(&42u32, |_: &u32| Ok(vec![1]), decode_u32),
        Err(Error::Eof)
    );
}
