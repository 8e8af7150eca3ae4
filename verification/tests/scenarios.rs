//! Scenarios for the encoder and decoder: each test walks a value the way
//! serde's data model does.

use calabi_bcs::{
    is_human_readable, Deserializer, Error, MapKeyTracker, Serializer, MAX_CONTAINER_DEPTH,
    MAX_SEQUENCE_LENGTH,
};

fn ser() -> Serializer {
    Serializer::new(Vec::new(), MAX_CONTAINER_DEPTH)
}

fn de(bytes: &[u8]) -> Deserializer<'_> {
    Deserializer::new(bytes, MAX_CONTAINER_DEPTH)
}

/// A `Vec<u8>` as serde writes it: a sequence of `u8`.
fn put_byte_vec(s: &mut Serializer, v: &[u8]) {
    s.serialize_seq(Some(v.len())).unwrap();
    for b in v {
        s.serialize_u8(*b);
    }
}

fn get_byte_vec(d: &mut Deserializer<'_>) -> Result<Vec<u8>, Error> {
    let len = d.parse_length()?;
    let mut v = Vec::new();
    for _ in 0..len {
        v.push(d.parse_u8()?);
    }
    Ok(v)
}

fn byte_vec_alone(v: &[u8]) -> Vec<u8> {
    let mut s = ser();
    put_byte_vec(&mut s, v);
    s.into_output()
}

#[test]
fn test_enum() {
    // enum E { Unit, Newtype(u16), Tuple(u16, u16), Struct { a: u32 } }
    let mut s = ser();
    s.serialize_unit_variant("E", 0, "Unit").unwrap();
    let bytes = s.into_output();
    assert_eq!(bytes, vec![0]);
    let mut d = de(&bytes);
    d.enter_named_container("E").unwrap();
    assert_eq!(d.parse_variant_index(), Ok(0));
    d.leave_named_container();
    assert_eq!(d.end(), Ok(()));

    let mut s = ser();
    s.serialize_newtype_variant("E", 1, "Newtype").unwrap();
    s.serialize_u16(1);
    let bytes = s.into_output();
    assert_eq!(bytes, vec![1, 1, 0]);
    let mut d = de(&bytes);
    assert_eq!(d.parse_variant_index(), Ok(1));
    assert_eq!(d.parse_u16(), Ok(1));
    assert_eq!(d.end(), Ok(()));

    let mut s = ser();
    s.serialize_tuple_variant("E", 2, "Tuple", 2).unwrap();
    s.serialize_u16(1);
    s.serialize_u16(2);
    let bytes = s.into_output();
    assert_eq!(bytes, vec![2, 1, 0, 2, 0]);
    let mut d = de(&bytes);
    assert_eq!(d.parse_variant_index(), Ok(2));
    assert_eq!(d.parse_u16(), Ok(1));
    assert_eq!(d.parse_u16(), Ok(2));
    assert_eq!(d.end(), Ok(()));

    let mut s = ser();
    s.serialize_struct_variant("E", 3, "Struct", 1).unwrap();
    s.serialize_u32(1);
    let bytes = s.into_output();
    assert_eq!(bytes, vec![3, 1, 0, 0, 0]);
    let mut d = de(&bytes);
    assert_eq!(d.parse_variant_index(), Ok(3));
    assert_eq!(d.parse_u32(), Ok(1));
    assert_eq!(d.end(), Ok(()));
}

#[test]
fn invalid_utf8() {
    let invalid_utf8 = vec![1, 0xFF];
    assert_eq!(de(&invalid_utf8).parse_string(), Err(Error::Utf8));
}

#[test]
fn invalid_option() {
    let invalid_option = vec![5, 0];
    assert_eq!(de(&invalid_option).parse_option_tag(), Err(Error::ExpectedOption));
}

#[test]
fn invalid_bool() {
    let invalid_bool = vec![9];
    assert_eq!(de(&invalid_bool).parse_bool(), Err(Error::ExpectedBoolean));
}

#[test]
fn sequence_too_long() {
    let mut s = ser();
    match s.serialize_seq(Some(MAX_SEQUENCE_LENGTH + 1)).unwrap_err() {
        Error::ExceededMaxLen(len) => assert_eq!(len, MAX_SEQUENCE_LENGTH + 1),
        _ => panic!(),
    }
}

#[test]
fn variable_lengths() {
    // A sequence of units is its length alone.
    let units = |n: usize| {
        let mut s = ser();
        s.serialize_seq(Some(n)).unwrap();
        for _ in 0..n {
            s.serialize_unit();
        }
        s.into_output()
    };
    assert_eq!(units(1), vec![0x01]);
    assert_eq!(units(128), vec![0x80, 0x01]);
    assert_eq!(units(255), vec![0xff, 0x01]);
    assert_eq!(units(786_432), vec![0x80, 0x80, 0x30]);
}

#[test]
fn sequence_not_long_enough() {
    let seq = vec![5, 1, 2, 3, 4]; // Missing 5th element
    assert_eq!(get_byte_vec(&mut de(&seq)), Err(Error::Eof));
}

#[test]
fn map_not_canonical() {
    // BTreeMap<u8, ()>: each key is one byte, each value nothing.
    fn read(seq: &[u8]) -> Result<Vec<u8>, Error> {
        let mut d = de(seq);
        let mut keys = MapKeyTracker::new(d.parse_length()?);
        let mut out = Vec::new();
        while keys.next_entry() {
            let before = d.remaining_input();
            let k = d.parse_u8()?;
            let after = d.remaining_input();
            keys.record_key(before, after)?;
            out.push(k);
        }
        d.end()?;
        Ok(out)
    }
    let seq = vec![2, 4, 5];
    assert_eq!(read(&seq), Ok(vec![4, 5]));
    // Make sure out-of-order keys are rejected.
    let seq = vec![2, 5, 4];
    assert_eq!(read(&seq), Err(Error::NonCanonicalMap));
    // Make sure duplicate keys are rejected.
    let seq = vec![2, 5, 5];
    assert_eq!(read(&seq), Err(Error::NonCanonicalMap));
}

#[test]
fn leftover_bytes() {
    let seq = vec![5, 1, 2, 3, 4, 5, 6, 7, 8, 9, 10]; // 5 extra elements
    let mut d = de(&seq);
    assert_eq!(get_byte_vec(&mut d), Ok(vec![1, 2, 3, 4, 5]));
    assert_eq!(d.end(), Err(Error::RemainingInput));
}

#[test]
fn test_f32() {
    assert!(ser().serialize_f32(1.0f32.to_bits()).is_err());
}

#[test]
fn test_f64() {
    assert!(ser().serialize_f64(42.0f64.to_bits()).is_err());
}

#[test]
fn test_char() {
    assert!(ser().serialize_char('a').is_err());
}

#[test]
fn zero_copy_parse() {
    // struct Foo<'a> { borrowed_str: &'a str, borrowed_bytes: &'a [u8] }
    let mut s = ser();
    s.serialize_struct("Foo", 2).unwrap();
    s.serialize_str("hi").unwrap();
    s.serialize_bytes(&[0, 1, 2, 3]).unwrap();
    let expected = vec![2, b'h', b'i', 4, 0, 1, 2, 3];
    let encoded = s.into_output();
    assert_eq!(expected, encoded);
    let mut d = de(&encoded[..]);
    d.enter_named_container("Foo").unwrap();
    let borrowed_str = d.parse_string().unwrap();
    let borrowed_bytes = d.parse_bytes().unwrap();
    d.leave_named_container();
    d.end().unwrap();
    assert_eq!((borrowed_str, borrowed_bytes), ("hi", &[0u8, 1, 2, 3][..]));
}

/// `Foo { a: u64, b: Vec<u8>, c: Bar, d: bool, e: BTreeMap<Vec<u8>, Vec<u8>> }`
/// with `Bar { a: u64, b: Vec<u8>, c: Addr, d: u32 }` and `Addr([u8; 32])`.
fn encode_known_foo(entries: &[(Vec<u8>, Vec<u8>)]) -> Result<Vec<u8>, Error> {
    let mut s = ser();
    s.serialize_struct("Foo", 5)?;
    s.serialize_u64(u64::MAX);
    put_byte_vec(&mut s, &[100, 99, 88, 77, 66, 55]);
    s.serialize_struct("Bar", 4)?;
    s.serialize_u64(100);
    put_byte_vec(&mut s, &[0, 1, 2, 3, 4, 5, 6, 7, 8]);
    s.serialize_newtype_struct("Addr")?;
    s.serialize_tuple(32);
    for _ in 0..32 {
        s.serialize_u8(5);
    }
    s.serialize_u32(99);
    s.serialize_bool(true);
    let mut map = s.serialize_map(Some(entries.len()));
    for (k, v) in entries {
        let k = k.clone();
        let v = v.clone();
        map.serialize_key(|_| Ok(byte_vec_alone(&k)))?;
        map.serialize_value(|_| Ok(byte_vec_alone(&v)))?;
    }
    map.end()
}

#[test]
fn serde_known_vector() {
    let entries = vec![
        (vec![0u8, 56, 21], vec![22u8, 10, 5]),
        (vec![1], vec![22, 21, 67]),
        (vec![20, 21, 89, 105], vec![201, 23, 90]),
    ];
    let bytes = encode_known_foo(&entries).unwrap();

    let test_vector = vec![
        0xff, 0xff, 0xff, 0xff, 0xff, 0xff, 0xff, 0xff, 0x06, 0x64, 0x63, 0x58, 0x4d, 0x42, 0x37,
        0x64, 0x00, 0x00, 0x00, 0x00, 0x00, 0x00, 0x00, 0x09, 0x00, 0x01, 0x02, 0x03, 0x04, 0x05,
        0x06, 0x07, 0x08, 0x05, 0x05, 0x05, 0x05, 0x05, 0x05, 0x05, 0x05, 0x05, 0x05, 0x05, 0x05,
        0x05, 0x05, 0x05, 0x05, 0x05, 0x05, 0x05, 0x05, 0x05, 0x05, 0x05, 0x05, 0x05, 0x05, 0x05,
        0x05, 0x05, 0x05, 0x05, 0x05, 0x63, 0x00, 0x00, 0x00, 0x01, 0x03, 0x01, 0x01, 0x03, 0x16,
        0x15, 0x43, 0x03, 0x00, 0x38, 0x15, 0x03, 0x16, 0x0a, 0x05, 0x04, 0x14, 0x15, 0x59, 0x69,
        0x03, 0xc9, 0x17, 0x5a,
    ];

    // make sure we serialize into exact same bytes as before
    assert_eq!(test_vector, bytes);

    // make sure we can deserialize the test vector into expected struct
    let mut d = de(&test_vector);
    d.enter_named_container("Foo").unwrap();
    assert_eq!(d.parse_u64(), Ok(u64::MAX));
    assert_eq!(get_byte_vec(&mut d), Ok(vec![100, 99, 88, 77, 66, 55]));
    d.enter_named_container("Bar").unwrap();
    assert_eq!(d.parse_u64(), Ok(100));
    assert_eq!(get_byte_vec(&mut d), Ok(vec![0, 1, 2, 3, 4, 5, 6, 7, 8]));
    d.enter_named_container("Addr").unwrap();
    for _ in 0..32 {
        assert_eq!(d.parse_u8(), Ok(5));
    }
    d.leave_named_container();
    assert_eq!(d.parse_u32(), Ok(99));
    d.leave_named_container();
    assert_eq!(d.parse_bool(), Ok(true));
    let mut keys = MapKeyTracker::new(d.parse_length().unwrap());
    let mut read = Vec::new();
    while keys.next_entry() {
        let before = d.remaining_input();
        let k = get_byte_vec(&mut d).unwrap();
        keys.record_key(before, d.remaining_input()).unwrap();
        let v = get_byte_vec(&mut d).unwrap();
        read.push((k, v));
    }
    d.leave_named_container();
    assert_eq!(d.end(), Ok(()));
    // The entries come back in the order of their serialized keys; as a map
    // they are the ones written.
    let read: std::collections::BTreeMap<Vec<u8>, Vec<u8>> = read.into_iter().collect();
    let entries: std::collections::BTreeMap<Vec<u8>, Vec<u8>> = entries.into_iter().collect();
    assert_eq!(read, entries);
}

/// `List { next: Option<(usize, Box<List>)> }` holding `len - 1, ..., 1, 0`.
fn encode_list(len: usize, limit: usize) -> Result<Vec<u8>, Error> {
    let mut s = Serializer::with_limit(Vec::new(), limit)?;
    // Each level is a struct inside the tuple of the level above; the depth of a
    // level is that of the struct that holds it.
    for i in (0..len).rev() {
        s.serialize_struct("List", 1)?;
        s.serialize_some();
        s.serialize_tuple(2);
        s.serialize_u64(i as u64);
    }
    s.serialize_struct("List", 1)?;
    s.serialize_none();
    Ok(s.into_output())
}

fn decode_list(bytes: &[u8], limit: usize) -> Result<usize, Error> {
    let mut d = Deserializer::with_limit(bytes, limit)?;
    let mut len = 0;
    loop {
        d.enter_named_container("List")?;
        if !d.parse_option_tag()? {
            break;
        }
        d.parse_u64()?;
        len += 1;
    }
    d.end()?;
    Ok(len)
}

#[test]
fn test_recursion_limit() {
    let b1 = encode_list(4, MAX_CONTAINER_DEPTH).unwrap();
    assert_eq!(
        b1,
        vec![
            1, 3, 0, 0, 0, 0, 0, 0, 0, 1, 2, 0, 0, 0, 0, 0, 0, 0, 1, 1, 0, 0, 0, 0, 0, 0, 0, 1, 0,
            0, 0, 0, 0, 0, 0, 0, 0
        ]
    );
    assert_eq!(decode_list(&b1, MAX_CONTAINER_DEPTH), Ok(4));

    let b2 = encode_list(MAX_CONTAINER_DEPTH - 1, MAX_CONTAINER_DEPTH).unwrap();
    assert_eq!(decode_list(&b2, MAX_CONTAINER_DEPTH), Ok(MAX_CONTAINER_DEPTH - 1));

    assert_eq!(
        encode_list(MAX_CONTAINER_DEPTH, MAX_CONTAINER_DEPTH),
        Err(Error::ExceededContainerDepthLimit("List"))
    );
    let mut b3 = vec![1, 243, 1, 0, 0, 0, 0, 0, 0];
    b3.extend(b2);
    assert_eq!(
        decode_list(&b3, MAX_CONTAINER_DEPTH),
        Err(Error::ExceededContainerDepthLimit("List"))
    );

    // test customized limit
    let limit = 100;
    let not_supported_err = Error::NotSupported("limit exceeds the max allowed depth 500");
    assert_eq!(
        encode_list(limit, limit),
        Err(Error::ExceededContainerDepthLimit("List"))
    );
    assert_eq!(
        encode_list(limit, MAX_CONTAINER_DEPTH + 1),
        Err(not_supported_err.clone()),
    );
    let bytes = encode_list(limit, limit + 1).unwrap();
    assert_eq!(
        decode_list(&bytes, limit),
        Err(Error::ExceededContainerDepthLimit("List"))
    );
    assert_eq!(decode_list(&bytes, limit + 1), Ok(limit));
    assert_eq!(
        decode_list(&bytes, MAX_CONTAINER_DEPTH + 1),
        Err(not_supported_err)
    );
}

#[test]
fn test_recursion_limit_enum() {
    // enum EnumA { ValueA }
    let mut s = Serializer::with_limit(Vec::new(), 0).unwrap();
    s.serialize_unit_variant("EnumA", 0, "ValueA").unwrap_err();

    let mut s = Serializer::with_limit(Vec::new(), 1).unwrap();
    s.serialize_unit_variant("EnumA", 0, "ValueA").unwrap();
    let bytes = s.into_output();
    let mut d = Deserializer::with_limit(&bytes, 1).unwrap();
    d.enter_named_container("EnumA").unwrap();
    d.parse_variant_index().unwrap();
    d.leave_named_container();
    d.end().unwrap();
}

#[test]
fn test_serialize_into_with_limit_exceeding() {
    let err = Serializer::with_limit(Vec::new(), 501).err().unwrap();
    assert!(matches!(err, Error::NotSupported(_)));
}

#[test]
fn test_is_human_readable() {
    assert!(!is_human_readable());
}

#[test]
fn test_eof_error_in_read_bytes() {
    // Try to deserialize with insufficient bytes
    let bytes = vec![0x05]; // Length says 5 bytes, but only 1 byte available
    let err = get_byte_vec(&mut de(&bytes)).unwrap_err();
    assert!(matches!(err, Error::Eof));
}

#[test]
fn test_map_serialization_error_paths() {
    // Test empty map
    let map = ser().serialize_map(Some(0));
    let bytes = map.end().unwrap();
    let mut d = de(&bytes);
    let mut keys = MapKeyTracker::new(d.parse_length().unwrap());
    assert!(!keys.next_entry());
    assert_eq!(d.end(), Ok(()));
}

#[test]
fn test_exceeded_max_sequence_length() {
    // ULEB128 encoding of MAX_SEQUENCE_LENGTH + 1 = 2^31
    let bytes = vec![0x80, 0x80, 0x80, 0x80, 0x08]; // 2^31 in ULEB128
    let err = get_byte_vec(&mut de(&bytes)).unwrap_err();
    assert!(matches!(err, Error::ExceededMaxLen(_)));
}

#[test]
fn test_memory_amplification_protection() {
    let bytes = vec![0xC0, 0x84, 0x3D]; // ULEB128 for 1,000,000
    let err = get_byte_vec(&mut de(&bytes)).unwrap_err();
    assert!(matches!(err, Error::Eof));
}

#[test]
fn test_memory_amplification_protection_string() {
    // Claim 10,000 bytes but provide only 2
    let bytes = vec![0x90, 0x4E, b'h', b'i']; // ULEB128 for 10,000, then "hi"
    let err = de(&bytes).parse_string().unwrap_err();
    assert!(matches!(err, Error::Eof));
}

#[test]
fn test_memory_amplification_small_valid_length() {
    let bytes = vec![0x02, 0x41, 0x42]; // length 2, then "AB"
    let result: Vec<u8> = get_byte_vec(&mut de(&bytes)).unwrap();
    assert_eq!(result, vec![0x41, 0x42]);
}

#[test]
fn test_duplicate_map_keys_serialization() {
    let mut s = ser();
    let mut map = s.serialize_map(Some(2));
    let key = {
        let mut k = ser();
        k.serialize_u32(1);
        k.into_output()
    };
    let value = |v: &str| {
        let mut s = ser();
        s.serialize_str(v).unwrap();
        s.into_output()
    };
    let k1 = key.clone();
    map.serialize_key(|_| Ok(k1)).unwrap();
    map.serialize_value(|_| Ok(value("first"))).unwrap();
    map.serialize_key(|_| Ok(key)).unwrap(); // Duplicate key!
    map.serialize_value(|_| Ok(value("second"))).unwrap();
    let err = map.end().unwrap_err();
    assert!(matches!(err, Error::NonCanonicalMap));
    s = ser();
    assert!(s.output().is_empty());
}
