use segment::segment::Segment;
use segment::types::OperationError;
use segment::types::PayloadType;

fn key(s: &str) -> String {
    s.to_string()
}

#[test]
fn new_segment_is_empty() {
    let s = Segment::new(4, true);
    assert_eq!(s.version(), 0);
    assert!(s.is_appendable());
    assert_eq!(s.vectors_count(), 0);
    assert!(!s.has_point(1));
    let stats = s.info();
    assert_eq!(stats.num_vectors, 0);
    assert_eq!(stats.num_deleted_vectors, 0);
    assert_eq!(stats.ram_usage_bytes, 0);
    assert_eq!(stats.disk_usage_bytes, 0);
}

#[test]
fn idempotent_replay() {
    let mut s = Segment::new(4, true);
    let v = vec![1, 2, 3, 4];
    assert_eq!(s.upsert_point(1, 7, &v), Ok(false));
    assert_eq!(s.version(), 1);
    assert_eq!(s.vector(7), Ok(vec![1, 2, 3, 4]));

    // The very same operation again: reported as skipped, nothing changes.
    assert_eq!(s.upsert_point(1, 7, &v), Ok(false));
    assert_eq!(s.version(), 1);
    assert_eq!(s.vector(7), Ok(vec![1, 2, 3, 4]));
    assert_eq!(s.vectors_count(), 1);
    assert_eq!(s.payload(7).unwrap().len(), 0);

    // A replay carrying a different vector is skipped as well.
    let other = vec![9, 9, 9, 9];
    assert_eq!(s.upsert_point(1, 7, &other), Ok(false));
    assert_eq!(s.vector(7), Ok(vec![1, 2, 3, 4]));
}

#[test]
fn monotonic_version() {
    let mut s = Segment::new(4, true);
    let v = vec![1, 2, 3, 4];
    assert_eq!(s.upsert_point(1, 7, &v), Ok(false));
    assert_eq!(s.version(), 1);
    assert_eq!(s.set_payload(3, 7, &key("a"), PayloadType::Integer(1)), Ok(true));
    assert_eq!(s.version(), 3);
    assert_eq!(s.delete_point(7, 7), Ok(true));
    assert_eq!(s.version(), 7);
}

#[test]
fn out_of_order_rejection() {
    let mut s = Segment::new(4, true);
    let v1 = vec![1, 2, 3, 4];
    let v2 = vec![5, 6, 7, 8];
    assert_eq!(s.upsert_point(5, 7, &v1), Ok(false));
    // A lower-numbered operation arrives afterwards: skipped.
    assert_eq!(s.upsert_point(3, 7, &v2), Ok(false));
    assert_eq!(s.version(), 5);
    assert_eq!(s.vector(7), Ok(vec![1, 2, 3, 4]));
}

#[test]
fn update_preserves_payload() {
    let mut s = Segment::new(4, true);
    let v1 = vec![1, 2, 3, 4];
    let v2 = vec![5, 6, 7, 8];
    assert_eq!(s.upsert_point(1, 7, &v1), Ok(false));
    assert_eq!(s.set_payload(2, 7, &key("a"), PayloadType::Integer(1)), Ok(true));
    // Replacing the vector reassigns the offset but keeps the payload.
    assert_eq!(s.upsert_point(3, 7, &v2), Ok(true));
    assert_eq!(s.vector(7), Ok(vec![5, 6, 7, 8]));
    let p = s.payload(7).unwrap();
    assert_eq!(p.len(), 1);
    assert_eq!(p.get(&key("a")), Some(&PayloadType::Integer(1)));
}

#[test]
fn delete_removes_point() {
    let mut s = Segment::new(4, true);
    let v = vec![1, 2, 3, 4];
    assert_eq!(s.upsert_point(1, 7, &v), Ok(false));
    assert_eq!(s.delete_point(2, 7), Ok(true));
    assert!(!s.has_point(7));
    assert_eq!(s.vector(7), Err(OperationError::PointNotFound { point_id: 7 }));
    assert_eq!(s.vectors_count(), 0);
}

#[test]
fn dimension_enforcement() {
    let mut s = Segment::new(4, true);
    let short = vec![1, 2, 3];
    assert_eq!(
        s.upsert_point(1, 7, &short),
        Err(OperationError::DimensionMismatch { expected: 4, received: 3 })
    );
    assert!(!s.has_point(7));
    assert_eq!(s.vectors_count(), 0);
    // The version gate had already admitted the operation number.
    assert_eq!(s.version(), 1);
}

#[test]
fn delete_unknown_point_is_noop() {
    let mut s = Segment::new(4, true);
    assert_eq!(s.delete_point(1, 42), Ok(false));
    assert_eq!(s.version(), 1);
}

#[test]
fn stale_operation_leaves_payload_untouched() {
    let mut s = Segment::new(4, true);
    let v = vec![1, 2, 3, 4];
    assert_eq!(s.upsert_point(5, 7, &v), Ok(false));
    assert_eq!(s.set_payload(2, 7, &key("a"), PayloadType::Integer(1)), Ok(false));
    assert_eq!(s.payload(7).unwrap().len(), 0);
    assert_eq!(s.version(), 5);
}

#[test]
fn counts_track_updates_and_deletes() {
    let mut s = Segment::new(2, false);
    assert!(!s.is_appendable());
    let v1 = vec![1, 2];
    let v2 = vec![3, 4];
    assert_eq!(s.upsert_point(1, 7, &v1), Ok(false));
    assert_eq!(s.info().num_vectors, 1);
    assert_eq!(s.info().num_deleted_vectors, 0);
    // An update retires the old offset.
    assert_eq!(s.upsert_point(2, 7, &v2), Ok(true));
    assert_eq!(s.info().num_vectors, 1);
    assert_eq!(s.info().num_deleted_vectors, 1);
    assert_eq!(s.delete_point(3, 7), Ok(true));
    assert_eq!(s.info().num_vectors, 0);
    assert_eq!(s.info().num_deleted_vectors, 2);
}

#[test]
fn two_points_are_independent() {
    let mut s = Segment::new(2, true);
    let va = vec![1, 0];
    let vb = vec![0, 1];
    assert_eq!(s.upsert_point(1, 1, &va), Ok(false));
    assert_eq!(s.upsert_point(2, 2, &vb), Ok(false));
    assert_eq!(s.set_payload(3, 1, &key("a"), PayloadType::Integer(1)), Ok(true));
    assert_eq!(s.delete_point(4, 1), Ok(true));
    assert!(s.has_point(2));
    assert_eq!(s.vector(2), Ok(vec![0, 1]));
    assert_eq!(s.payload(2).unwrap().len(), 0);
}
