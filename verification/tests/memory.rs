use ai_agent::memory::rank;

#[test]
fn the_most_similar_come_first() {
    assert_eq!(rank(&[3, 9, -2, 9, 5], 3), vec![1, 3, 4]);
    assert_eq!(rank(&[3, 9, -2, 9, 5], 9), vec![1, 3, 4, 0, 2]);
}

#[test]
fn equally_similar_ones_keep_their_order() {
    assert_eq!(rank(&[7, 7, 7], 2), vec![0, 1]);
}

#[test]
fn nothing_to_rank() {
    assert!(rank(&[], 5).is_empty());
    assert!(rank(&[1, 2], 0).is_empty());
}

#[test]
fn extremes() {
    assert_eq!(rank(&[i64::MIN, i64::MAX, 0], 3), vec![1, 2, 0]);
}
