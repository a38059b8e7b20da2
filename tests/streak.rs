use scoreboard::streak::{best_streak, best_window_start, streak_of};

#[test]
fn tied_windows_keep_the_earliest() {
    assert_eq!(best_streak(&[5, 5, 3], Some(2)), vec![5, 5]);
    assert_eq!(best_window_start(&[5, 5, 3], 2), 0);
    assert_eq!(best_streak(&[4, 6, 4, 6], Some(2)), vec![4, 6]);
    assert_eq!(best_window_start(&[4, 6, 4, 6], 2), 0);
    assert_eq!(best_window_start(&[1, 4, 6, 4, 6], 2), 1);
}

#[test]
fn best_window_has_the_largest_sum() {
    assert_eq!(best_streak(&[1, 9, 2, 8, 8, 1], Some(2)), vec![8, 8]);
    assert_eq!(best_streak(&[1, 9, 2, 8, 8, 1], Some(1)), vec![9]);
    assert_eq!(best_streak(&[-3, -1, -2], Some(2)), vec![-1, -2]);
    assert_eq!(best_streak(&[3, 1, 2], Some(3)), vec![3, 1, 2]);
}

#[test]
fn no_window_length_means_the_whole_history() {
    assert_eq!(best_streak(&[3, 1, 2], None), vec![3, 1, 2]);
}

#[test]
fn windows_that_cannot_form_give_an_empty_streak() {
    assert!(best_streak(&[3, 1], Some(3)).is_empty());
    assert!(best_streak(&[3, 1], Some(0)).is_empty());
    assert!(best_streak(&[], None).is_empty());
    assert!(best_streak(&[], Some(1)).is_empty());
}

#[test]
fn streak_totals() {
    let s = streak_of(&[2, 4, 4, 4, 5, 5, 7, 9], None);
    assert_eq!(s.total, 40);
    assert_eq!(s.sum_of_squares, 232);
    let w = streak_of(&[1, 10, 10, 2], Some(2));
    assert_eq!(w.scores, vec![10, 10]);
    assert_eq!(w.total, 20);
    assert_eq!(w.sum_of_squares, 200);
    let e = streak_of(&[1], Some(2));
    assert!(e.scores.is_empty());
    assert_eq!((e.total, e.sum_of_squares), (0, 0));
}
