use scoreboard::badges::{badge_tier, count_badges, get_badges, BadgeTier, Badges, NoMaxScoreErr, PlayerScores};

#[test]
fn tiers_follow_the_thresholds() {
    assert_eq!(badge_tier(100, 100), Some(BadgeTier::Star));
    assert_eq!(badge_tier(120, 100), Some(BadgeTier::Star));
    assert_eq!(badge_tier(94, 100), Some(BadgeTier::Gold));
    assert_eq!(badge_tier(99, 100), Some(BadgeTier::Gold));
    assert_eq!(badge_tier(93, 100), Some(BadgeTier::Silver));
    assert_eq!(badge_tier(88, 100), Some(BadgeTier::Silver));
    assert_eq!(badge_tier(87, 100), Some(BadgeTier::Bronze));
    assert_eq!(badge_tier(83, 100), Some(BadgeTier::Bronze));
    assert_eq!(badge_tier(82, 100), None);
    assert_eq!(badge_tier(0, 100), None);
    assert_eq!(badge_tier(47, 50), Some(BadgeTier::Gold));
    assert_eq!(badge_tier(i32::MIN, i32::MAX), None);
    assert_eq!(badge_tier(i32::MAX, i32::MAX), Some(BadgeTier::Star));
}

#[test]
fn each_score_earns_at_most_one_badge() {
    let scores = [100, 95, 90, 85, 10, 100, 94];
    let b = count_badges(&scores, 100);
    assert_eq!(b, Badges { star: 2, gold: 2, silver: 1, bronze: 1 });
    assert_eq!(b.star + b.gold + b.silver + b.bronze, 6);
    for s in -5..130 {
        let one = count_badges(&[s], 100);
        let total = one.star + one.gold + one.silver + one.bronze;
        assert_eq!(total, if s >= 83 { 1 } else { 0 });
    }
}

#[test]
fn badges_need_a_maximum_score() {
    let players = vec![PlayerScores { id: 1, scores: vec![100] }];
    assert_eq!(get_badges(None, &players), Err(NoMaxScoreErr));
    assert_eq!(get_badges(None, &[]), Err(NoMaxScoreErr));
}

#[test]
fn badges_per_player_in_order() {
    let players = vec![
        PlayerScores { id: 4, scores: vec![50, 49, 45, 10] },
        PlayerScores { id: 2, scores: vec![] },
    ];
    let all = get_badges(Some(50), &players).expect("group has a maximum");
    assert_eq!(all.len(), 2);
    assert_eq!(all[0].id, 4);
    assert_eq!(all[0].badges, Badges { star: 1, gold: 1, silver: 1, bronze: 0 });
    assert_eq!(all[1].id, 2);
    assert_eq!(all[1].badges, Badges::new());
}
