use calabi_bcs::{Error, MapSerializer, Serializer, MAX_CONTAINER_DEPTH};

fn entry(map: &mut MapSerializer, key: Vec<u8>, value: Vec<u8>) {
    map.serialize_key(|_| Ok(key)).unwrap();
    map.serialize_value(|_| Ok(value)).unwrap();
}

fn fresh_map() -> MapSerializer {
    Serializer::new(Vec::new(), MAX_CONTAINER_DEPTH).serialize_map(None)
}

#[test]
fn entries_are_sorted_by_key_bytes() {
    let mut m = fresh_map();
    entry(&mut m, vec![4, 20, 21, 89, 105], vec![3, 201, 23, 90]);
    entry(&mut m, vec![1, 1], vec![3, 22, 21, 67]);
    entry(&mut m, vec![3, 0, 56, 21], vec![3, 22, 10, 5]);
    assert_eq!(
        m.end().unwrap(),
        vec![
            3, 1, 1, 3, 22, 21, 67, 3, 0, 56, 21, 3, 22, 10, 5, 4, 20, 21, 89, 105, 3, 201, 23, 90
        ]
    );
}

#[test]
fn order_of_insertion_does_not_matter() {
    let entries = vec![
        (vec![2u8], vec![20u8]),
        (vec![1], vec![10]),
        (vec![1, 0], vec![11]),
        (vec![], vec![0]),
    ];
    let mut a = fresh_map();
    for (k, v) in entries.iter() {
        entry(&mut a, k.clone(), v.clone());
    }
    let mut b = fresh_map();
    for (k, v) in entries.iter().rev() {
        entry(&mut b, k.clone(), v.clone());
    }
    let a = a.end().unwrap();
    assert_eq!(a, b.end().unwrap());
    assert_eq!(a, vec![4, 0, 1, 10, 1, 0, 11, 2, 20]);
}

#[test]
fn prefix_comes_first() {
    let mut m = fresh_map();
    entry(&mut m, vec![5, 1], vec![]);
    entry(&mut m, vec![5], vec![]);
    assert_eq!(m.end().unwrap(), vec![2, 5, 5, 1]);
}

#[test]
fn empty_map() {
    let m = fresh_map();
    assert_eq!(m.end().unwrap(), vec![0]);
}

#[test]
fn duplicate_keys_are_refused() {
    let mut m = fresh_map();
    entry(&mut m, vec![1, 0, 0, 0], vec![5, b'f', b'i', b'r', b's', b't']);
    entry(&mut m, vec![1, 0, 0, 0], vec![6, b's', b'e', b'c', b'o', b'n', b'd']);
    assert_eq!(m.end(), Err(Error::NonCanonicalMap));
}

#[test]
fn key_without_value() {
    let mut m = fresh_map();
    m.serialize_key(|_| Ok(vec![1])).unwrap();
    assert_eq!(m.serialize_key(|_| Ok(vec![2])), Err(Error::ExpectedMapValue));
    assert_eq!(m.end(), Err(Error::ExpectedMapValue));
}

#[test]
fn value_without_key() {
    let mut m = fresh_map();
    assert_eq!(m.serialize_value(|_| Ok(vec![1])), Err(Error::ExpectedMapKey));
}

#[test]
fn closures_get_the_depth() {
    let mut m = Serializer::new(Vec::new(), 7).serialize_map(Some(1));
    assert_eq!(m.max_remaining_depth(), 7);
    m.serialize_key(|d| Ok(vec![d as u8])).unwrap();
    m.serialize_value(|d| Ok(vec![d as u8 + 1])).unwrap();
    assert_eq!(m.end().unwrap(), vec![1, 7, 8]);
}

#[test]
fn errors_from_keys_and_values_pass_through() {
    let mut m = fresh_map();
    assert_eq!(
        m.serialize_key(|_| Err(Error::Custom("bad key".to_string()))),
        Err(Error::Custom("bad key".to_string()))
    );
    m.serialize_key(|_| Ok(vec![1])).unwrap();
    assert_eq!(
        m.serialize_value(|_| Err(Error::MissingLen)),
        Err(Error::MissingLen)
    );
    // The key was used up: the map is empty and complete.
    assert_eq!(m.end().unwrap(), vec![0]);
}

#[test]
fn map_after_other_bytes() {
    let mut s = Serializer::new(Vec::new(), MAX_CONTAINER_DEPTH);
    s.serialize_u8(9);
    let mut m = s.serialize_map(None);
    entry(&mut m, vec![3], vec![4]);
    assert_eq!(m.end().unwrap(), vec![9, 1, 3, 4]);
}
