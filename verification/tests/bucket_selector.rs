use quickwit::bucket_selector::{
    default_bucket_selector, BucketSelector, RoundRobinBucketSelector, Uri,
};

#[test]
fn test_round_robin_single_uri() {
    let uri = Uri::for_test("s3://bucket-a/index");
    let mut selector = RoundRobinBucketSelector::new(vec![uri.clone()]);
    for _ in 0..10 {
        assert_eq!(selector.select(), &uri);
    }
}

#[test]
fn test_round_robin_multiple_uris() {
    let uri_a = Uri::for_test("s3://bucket-a/index");
    let uri_b = Uri::for_test("s3://bucket-b/index");
    let uri_c = Uri::for_test("s3://bucket-c/index");
    let mut selector =
        RoundRobinBucketSelector::new(vec![uri_a.clone(), uri_b.clone(), uri_c.clone()]);

    assert_eq!(selector.select(), &uri_a);
    assert_eq!(selector.select(), &uri_b);
    assert_eq!(selector.select(), &uri_c);
    assert_eq!(selector.select(), &uri_a);
    assert_eq!(selector.select(), &uri_b);
    assert_eq!(selector.select(), &uri_c);
}

#[test]
fn test_default_bucket_selector() {
    let uri = Uri::for_test("s3://bucket-a/index");
    let mut selector = default_bucket_selector(vec![uri.clone()]);
    assert_eq!(selector.select(), &uri);
}

#[test]
fn test_round_robin_uses_uris_evenly() {
    let uris: Vec<Uri> = ["a", "b", "c"].iter().map(|uri| Uri::for_test(uri)).collect();
    let mut selector = RoundRobinBucketSelector::new(uris.clone());
    let mut use_counts = [0; 3];
    for _ in 0..20 {
        let selected = selector.select().clone();
        let position = uris.iter().position(|uri| *uri == selected).unwrap();
        use_counts[position] += 1;
        let min = use_counts.iter().min().unwrap();
        let max = use_counts.iter().max().unwrap();
        assert!(max - min <= 1);
    }
    assert_eq!(use_counts, [7, 7, 6]);
}
