use locinet::filter::filter_scores;

#[test]
fn keeps_scores_at_or_above_threshold_in_index_order() {
    let probs = vec![900000u32, 100000, 500000, 499999, 700000];
    assert_eq!(filter_scores(&probs, 500000), vec![(0usize, 900000u32), (2, 500000), (4, 700000)]);
}

#[test]
fn empty_when_nothing_passes() {
    let probs = vec![10u32, 20, 30];
    assert!(filter_scores(&probs, 500000).is_empty());
}

#[test]
fn certain_threshold_keeps_only_certain_scores() {
    let probs = vec![999999u32, 999955, 500000];
    assert!(filter_scores(&probs, 1000000).is_empty());
    let probs = vec![999999u32, 1000000];
    assert_eq!(filter_scores(&probs, 1000000), vec![(1usize, 1000000u32)]);
}

#[test]
fn zero_threshold_keeps_everything() {
    let probs = vec![0u32, 3, 1000000];
    assert_eq!(filter_scores(&probs, 0).len(), 3);
}
