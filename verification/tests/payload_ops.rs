use segment::payload::Payload;
use segment::segment::Segment;
use segment::types::OperationError;
use segment::types::PayloadType;

fn key(s: &str) -> String {
    s.to_string()
}

fn seg_with_point() -> Segment {
    let mut s = Segment::new(2, true);
    let v = vec![1, 2];
    assert_eq!(s.upsert_point(1, 7, &v), Ok(false));
    s
}

#[test]
fn payload_field_edit() {
    let mut s = seg_with_point();
    assert_eq!(s.set_payload(2, 7, &key("k"), PayloadType::Keyword(key("v"))), Ok(true));
    assert_eq!(s.set_payload(3, 7, &key("k2"), PayloadType::Keyword(key("v2"))), Ok(true));
    let p = s.payload(7).unwrap();
    assert_eq!(p.len(), 2);
    assert_eq!(p.get(&key("k")), Some(&PayloadType::Keyword(key("v"))));
    assert_eq!(p.get(&key("k2")), Some(&PayloadType::Keyword(key("v2"))));

    assert_eq!(s.delete_payload(4, 7, &key("k")), Ok(true));
    let p = s.payload(7).unwrap();
    assert_eq!(p.len(), 1);
    assert_eq!(p.get(&key("k")), None);
    assert_eq!(p.get(&key("k2")), Some(&PayloadType::Keyword(key("v2"))));
}

#[test]
fn new_point_has_empty_payload() {
    let s = seg_with_point();
    assert_eq!(s.payload(7).unwrap().len(), 0);
}

#[test]
fn set_full_payload_replaces_everything() {
    let mut s = seg_with_point();
    assert_eq!(s.set_payload(2, 7, &key("old"), PayloadType::Integer(1)), Ok(true));
    let mut full = Payload::new();
    full.insert(&key("a"), PayloadType::Integer(1));
    full.insert(&key("b"), PayloadType::Keyword(key("two")));
    assert_eq!(s.set_full_payload(3, 7, full), Ok(true));
    let p = s.payload(7).unwrap();
    assert_eq!(p.len(), 2);
    assert_eq!(p.get(&key("old")), None);
    assert_eq!(p.get(&key("a")), Some(&PayloadType::Integer(1)));
    assert_eq!(p.get(&key("b")), Some(&PayloadType::Keyword(key("two"))));
}

#[test]
fn payload_ops_on_unknown_point_fail() {
    let mut s = Segment::new(2, true);
    let expected = Err(OperationError::PointNotFound { point_id: 9 });
    assert_eq!(s.set_full_payload(1, 9, Payload::new()), expected);
    assert_eq!(s.set_payload(2, 9, &key("k"), PayloadType::Integer(1)), expected);
    assert_eq!(s.delete_payload(3, 9, &key("k")), expected);
    assert_eq!(s.clear_payload(4, 9), expected);
    assert_eq!(s.payload(9), Err(OperationError::PointNotFound { point_id: 9 }));
}

#[test]
fn clear_payload_empties() {
    let mut s = seg_with_point();
    assert_eq!(s.set_payload(2, 7, &key("a"), PayloadType::Integer(1)), Ok(true));
    assert_eq!(s.clear_payload(3, 7), Ok(true));
    assert_eq!(s.payload(7).unwrap().len(), 0);
    assert!(s.has_point(7));
    assert_eq!(s.vector(7), Ok(vec![1, 2]));
}

#[test]
fn delete_absent_payload_key_is_ok() {
    let mut s = seg_with_point();
    assert_eq!(s.delete_payload(2, 7, &key("missing")), Ok(true));
    assert_eq!(s.payload(7).unwrap().len(), 0);
}

#[test]
fn payload_map_insert_overwrites() {
    let mut p = Payload::new();
    p.insert(&key("a"), PayloadType::Integer(1));
    p.insert(&key("a"), PayloadType::Integer(2));
    assert_eq!(p.len(), 1);
    assert_eq!(p.get(&key("a")), Some(&PayloadType::Integer(2)));
}

#[test]
fn payload_map_remove_and_query() {
    let mut p = Payload::new();
    assert!(p.is_empty());
    p.insert(&key("a"), PayloadType::Integer(1));
    p.insert(&key("b"), PayloadType::Integer(2));
    p.remove(&key("a"));
    assert_eq!(p.len(), 1);
    assert_eq!(p.get(&key("a")), None);
    assert_eq!(p.get(&key("b")), Some(&PayloadType::Integer(2)));
    p.remove(&key("never-there"));
    assert_eq!(p.len(), 1);
    let q = p.clone();
    assert_eq!(q.get(&key("b")), Some(&PayloadType::Integer(2)));
}
