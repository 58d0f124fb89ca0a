use plottypus::history::bucket_bounds;

#[test]
fn squeezed_window_columns_split_the_samples() {
    assert_eq!(bucket_bounds(10, 4), vec![(0, 2), (2, 5), (5, 7), (7, 10)]);
    assert_eq!(bucket_bounds(7, 2), vec![(0, 3), (3, 7)]);
    assert_eq!(bucket_bounds(900, 1), vec![(0, 900)]);
}

#[test]
fn short_window_keeps_each_sample() {
    assert_eq!(bucket_bounds(3, 5), vec![(0, 1), (1, 2), (2, 3)]);
    assert_eq!(bucket_bounds(4, 4), vec![(0, 1), (1, 2), (2, 3), (3, 4)]);
}

#[test]
fn empty_window_or_no_columns_give_nothing() {
    assert_eq!(bucket_bounds(0, 4), Vec::<(usize, usize)>::new());
    assert_eq!(bucket_bounds(5, 0), Vec::<(usize, usize)>::new());
}

#[test]
fn columns_meet_end_to_end() {
    let b = bucket_bounds(37, 6);
    assert_eq!(b.first().map(|x| x.0), Some(0));
    assert_eq!(b.last().map(|x| x.1), Some(37));
    for w in b.windows(2) {
        assert_eq!(w[0].1, w[1].0);
        assert!(w[0].0 < w[0].1);
    }
}
