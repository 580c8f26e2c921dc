use ebishrimp::series::group_runs;

#[test]
fn group_series_splits_by_device() {
    let keys = vec!["a".to_string(), "a".to_string(), "b".to_string()];
    let runs = group_runs(&keys);
    assert_eq!(runs.len(), 2);
    assert_eq!(runs[0].key, "a");
    assert_eq!((runs[0].start, runs[0].end), (0, 2));
    assert_eq!(runs[1].key, "b");
    assert_eq!((runs[1].start, runs[1].end), (2, 3));
}

#[test]
fn group_series_empty() {
    assert!(group_runs(&[]).is_empty());
}

#[test]
fn group_runs_reopens_a_key_after_another() {
    let keys: Vec<String> = ["x", "y", "x", "x"].iter().map(|s| s.to_string()).collect();
    let runs = group_runs(&keys);
    let shape: Vec<(&str, usize, usize)> = runs.iter().map(|r| (r.key.as_str(), r.start, r.end)).collect();
    assert_eq!(shape, vec![("x", 0, 1), ("y", 1, 2), ("x", 2, 4)]);
}
