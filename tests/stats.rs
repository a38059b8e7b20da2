use scoreboard::stats::{aggregate, drop_game, get_head_to_head_stats, group_stats, wins_game, GameMax, PlayerStats, ScoreRow};

fn row(player_id: i32, game_id: i32, name: &str, points: i32) -> ScoreRow {
    ScoreRow { player_id, game_id, player_name: name.to_string(), points }
}

fn max(game_id: i32, max_score: i32) -> GameMax {
    GameMax { game_id, max_score }
}

fn find(stats: &[PlayerStats], id: i32) -> &PlayerStats {
    stats.iter().find(|p| p.id == id).expect("player present")
}

fn std_dev(p: &PlayerStats) -> f64 {
    let n = p.games as f64;
    let mean = p.points as f64 / n;
    (p.sum_of_squares as f64 / n - mean * mean).sqrt()
}

#[test]
fn tied_maximum_gives_every_tied_player_a_win() {
    let rows = vec![row(1, 7, "ann", 10), row(2, 7, "bob", 10), row(3, 7, "cy", 4)];
    let maxes = vec![max(7, 10)];
    let stats = group_stats(&rows, &maxes, None, None);
    assert_eq!(stats.len(), 3);
    assert_eq!(find(&stats, 1).wins, 1);
    assert_eq!(find(&stats, 2).wins, 1);
    assert_eq!(find(&stats, 3).wins, 0);
    let total: usize = stats.iter().map(|p| p.wins).sum();
    assert_eq!(total, 2);
}

#[test]
fn closed_form_std_dev_matches_direct_computation() {
    let scores = [2, 4, 4, 4, 5, 5, 7, 9];
    let rows: Vec<ScoreRow> = scores.iter().enumerate().map(|(g, s)| row(1, g as i32, "ann", *s)).collect();
    let stats = aggregate(&rows, &[], None);
    let p = find(&stats, 1);
    assert_eq!(p.games, 8);
    assert_eq!(p.points, 40);
    assert_eq!(p.sum_of_squares, 232);
    let mean = 40.0 / 8.0;
    let direct = (scores.iter().map(|x| (*x as f64 - mean).powi(2)).sum::<f64>() / 8.0).sqrt();
    assert!((std_dev(p) - direct).abs() < 1e-9);
    assert!((direct - 2.0).abs() < 1e-9);
}

#[test]
fn std_dev_of_uneven_scores() {
    let rows = vec![row(4, 1, "dee", 1), row(4, 2, "dee", 2), row(4, 3, "dee", 6)];
    let stats = aggregate(&rows, &[], None);
    let p = find(&stats, 4);
    let direct = {
        let mean = 3.0;
        (((1.0f64 - mean).powi(2) + (2.0f64 - mean).powi(2) + (6.0f64 - mean).powi(2)) / 3.0).sqrt()
    };
    assert!((std_dev(p) - direct).abs() < 1e-9);
}

#[test]
fn cap_counts_first_rows_in_iteration_order() {
    let rows = vec![
        row(1, 3, "ann", 9),
        row(2, 3, "bob", 2),
        row(1, 2, "ann", 5),
        row(1, 1, "ann", 1),
    ];
    let maxes = vec![max(3, 9), max(2, 5), max(1, 1)];
    let stats = group_stats(&rows, &maxes, Some(2), None);
    let ann = find(&stats, 1);
    assert_eq!(ann.games, 2);
    assert_eq!(ann.points, 14);
    assert_eq!(ann.sum_of_squares, 81 + 25);
    assert_eq!(ann.wins, 2);
    assert_eq!(find(&stats, 2).games, 1);
}

#[test]
fn zero_cap_gives_no_entries() {
    let rows = vec![row(1, 3, "ann", 9), row(2, 3, "bob", 2)];
    assert!(group_stats(&rows, &[max(3, 9)], Some(0), None).is_empty());
    assert!(group_stats(&rows, &[max(3, 9)], Some(-3), None).is_empty());
    assert!(get_head_to_head_stats(&rows, Some(0), &[max(3, 9)]).is_empty());
    let one = group_stats(&rows, &[max(3, 9)], Some(1), None);
    assert_eq!(one.len(), 2);
    assert!(one.iter().all(|p| p.games == 1));
}

#[test]
fn skipping_the_only_game_is_an_empty_group() {
    let rows = vec![row(1, 5, "ann", 3), row(2, 5, "bob", 8)];
    let maxes = vec![max(5, 8)];
    let skipped = group_stats(&rows, &maxes, None, Some(5));
    let empty = group_stats(&[], &maxes, None, None);
    assert!(skipped.is_empty());
    assert_eq!(skipped, empty);
}

#[test]
fn skipping_the_latest_game_keeps_the_others() {
    let rows = vec![row(1, 6, "ann", 3), row(2, 6, "bob", 8), row(1, 5, "ann", 7)];
    let maxes = vec![max(6, 8), max(5, 7)];
    let stats = group_stats(&rows, &maxes, None, Some(6));
    assert_eq!(stats.len(), 1);
    let ann = find(&stats, 1);
    assert_eq!(ann.games, 1);
    assert_eq!(ann.points, 7);
    assert_eq!(ann.wins, 1);
    let kept = drop_game(&rows, Some(6));
    assert_eq!(kept.len(), 1);
    assert_eq!(kept[0].game_id, 5);
    assert_eq!(drop_game(&rows, None).len(), 3);
    assert_eq!(drop_game(&rows, Some(99)).len(), 3);
}

#[test]
fn new_game_counts_exactly_once() {
    let old_rows = vec![row(1, 1, "ann", 4), row(2, 1, "bob", 6)];
    let maxes = vec![max(1, 6), max(2, 9)];
    let before = group_stats(&old_rows, &maxes, None, None);
    let mut rows = vec![row(1, 2, "ann", 9), row(2, 2, "bob", 3)];
    rows.extend(old_rows.iter().map(|r| r.duplicate()));
    let after = group_stats(&rows, &maxes, None, None);
    for id in [1, 2] {
        assert_eq!(find(&after, id).games, find(&before, id).games + 1);
    }
    assert_eq!(find(&after, 1).points, find(&before, 1).points + 9);
    assert_eq!(find(&after, 2).points, find(&before, 2).points + 3);
    assert_eq!(find(&after, 1).wins, 1);
    assert_eq!(find(&after, 2).wins, 1);
}

#[test]
fn entries_follow_first_appearance_and_first_name() {
    let rows = vec![row(9, 2, "zed", 1), row(3, 2, "amy", 2), row(9, 1, "zed old", 1)];
    let stats = aggregate(&rows, &[], None);
    assert_eq!(stats.iter().map(|p| p.id).collect::<Vec<_>>(), vec![9, 3]);
    assert_eq!(stats[0].name, "zed");
    assert_eq!(stats[0].wins, 0);
}

#[test]
fn game_without_recorded_maximum_gives_no_win() {
    assert!(!wins_game(&[max(1, 5)], 2, 5));
    assert!(wins_game(&[max(1, 5), max(2, 5)], 2, 5));
    assert!(!wins_game(&[], 2, 5));
}

#[test]
fn empty_rows_give_no_players() {
    assert!(aggregate(&[], &[], Some(3)).is_empty());
    assert!(get_head_to_head_stats(&[], None, &[]).is_empty());
}

#[test]
fn negative_scores_are_summed_exactly() {
    let rows = vec![row(1, 1, "ann", -3), row(1, 2, "ann", i32::MIN), row(1, 3, "ann", i32::MAX)];
    let stats = aggregate(&rows, &[max(1, -3)], None);
    let ann = find(&stats, 1);
    assert_eq!(ann.points, -3 + i32::MIN as i128 + i32::MAX as i128);
    assert_eq!(ann.sum_of_squares, 9 + (i32::MIN as i128).pow(2) + (i32::MAX as i128).pow(2));
    assert_eq!(ann.wins, 1);
}
