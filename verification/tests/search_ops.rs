use segment::segment::Segment;
use segment::types::Filter;
use segment::types::OperationError;
use segment::types::PayloadType;
use segment::types::ScoredPoint;
use segment::types::SearchParams;

fn key(s: &str) -> String {
    s.to_string()
}

#[test]
fn search_round_trip() {
    let mut s = Segment::new(4, true);
    let a = vec![1, 0, 0, 0];
    let b = vec![2, 0, 0, 0];
    let c = vec![3, 0, 0, 0];
    assert_eq!(s.upsert_point(1, 10, &a), Ok(false));
    assert_eq!(s.upsert_point(2, 20, &b), Ok(false));
    assert_eq!(s.upsert_point(3, 30, &c), Ok(false));

    let query = vec![1, 0, 0, 0];
    let hits = s.search(&query, None, 2, None).unwrap();
    assert!(hits.len() <= 2);
    // Dot products are 3, 2, 1 for points 30, 20, 10.
    assert_eq!(hits, vec![
        ScoredPoint { idx: 30, score: 3 },
        ScoredPoint { idx: 20, score: 2 },
    ]);
    for window in hits.windows(2) {
        assert!(window[0].score >= window[1].score);
    }
    for hit in &hits {
        assert!(hit.idx == 10 || hit.idx == 20 || hit.idx == 30);
    }
}

#[test]
fn search_returns_every_point_when_top_is_large() {
    let mut s = Segment::new(2, true);
    let a = vec![3, 0];
    let b = vec![2, 0];
    let c = vec![1, 0];
    assert_eq!(s.upsert_point(1, 10, &a), Ok(false));
    assert_eq!(s.upsert_point(2, 20, &b), Ok(false));
    assert_eq!(s.upsert_point(3, 30, &c), Ok(false));
    let query = vec![1, 0];
    let hits = s.search(&query, None, 10, None).unwrap();
    assert_eq!(hits, vec![
        ScoredPoint { idx: 10, score: 3 },
        ScoredPoint { idx: 20, score: 2 },
        ScoredPoint { idx: 30, score: 1 },
    ]);
}

#[test]
fn search_empty_segment() {
    let s = Segment::new(4, true);
    let query = vec![1, 1, 1, 1];
    assert_eq!(s.search(&query, None, 5, None), Ok(vec![]));
}

#[test]
fn search_top_zero_returns_nothing() {
    let mut s = Segment::new(2, true);
    let v = vec![1, 2];
    assert_eq!(s.upsert_point(1, 7, &v), Ok(false));
    assert_eq!(s.search(&v, None, 0, None), Ok(vec![]));
}

#[test]
fn search_dimension_mismatch() {
    let s = Segment::new(4, true);
    let query = vec![1, 2, 3];
    assert_eq!(
        s.search(&query, None, 5, None),
        Err(OperationError::DimensionMismatch { expected: 4, received: 3 })
    );
}

#[test]
fn search_exact_score() {
    let mut s = Segment::new(4, true);
    let v = vec![1, 1, 1, 1];
    assert_eq!(s.upsert_point(1, 7, &v), Ok(false));
    let query = vec![1, 2, 3, 4];
    let hits = s.search(&query, None, 1, None).unwrap();
    assert_eq!(hits, vec![ScoredPoint { idx: 7, score: 10 }]);
}

#[test]
fn search_with_negative_components() {
    let mut s = Segment::new(2, true);
    let a = vec![-5, 2];
    let b = vec![4, 1];
    assert_eq!(s.upsert_point(1, 1, &a), Ok(false));
    assert_eq!(s.upsert_point(2, 2, &b), Ok(false));
    let query = vec![1, 1];
    let hits = s.search(&query, None, 10, None).unwrap();
    // Scores: point 1 scores -3, point 2 scores 5.
    assert_eq!(hits, vec![
        ScoredPoint { idx: 2, score: 5 },
        ScoredPoint { idx: 1, score: -3 },
    ]);
}

#[test]
fn search_honours_payload_filter() {
    let mut s = Segment::new(2, true);
    let a = vec![9, 9];
    let b = vec![1, 1];
    assert_eq!(s.upsert_point(1, 1, &a), Ok(false));
    assert_eq!(s.upsert_point(2, 2, &b), Ok(false));
    assert_eq!(s.set_payload(3, 2, &key("tag"), PayloadType::Keyword(key("x"))), Ok(true));

    let query = vec![1, 1];
    let filter = Filter { must_have_key: key("tag") };
    // Point 1 scores higher but lacks the key; only point 2 qualifies.
    let hits = s.search(&query, Some(&filter), 10, None).unwrap();
    assert_eq!(hits, vec![ScoredPoint { idx: 2, score: 2 }]);
}

#[test]
fn search_params_are_accepted() {
    let mut s = Segment::new(2, true);
    let v = vec![2, 3];
    assert_eq!(s.upsert_point(1, 7, &v), Ok(false));
    let params = SearchParams { ef: 16 };
    let hits = s.search(&v, None, 1, Some(&params)).unwrap();
    assert_eq!(hits, vec![ScoredPoint { idx: 7, score: 13 }]);
}

#[test]
fn search_after_update_uses_new_vector() {
    let mut s = Segment::new(2, true);
    let v1 = vec![1, 0];
    let v2 = vec![0, 1];
    assert_eq!(s.upsert_point(1, 7, &v1), Ok(false));
    assert_eq!(s.upsert_point(2, 7, &v2), Ok(true));
    let query = vec![0, 1];
    let hits = s.search(&query, None, 10, None).unwrap();
    assert_eq!(hits, vec![ScoredPoint { idx: 7, score: 1 }]);
}
