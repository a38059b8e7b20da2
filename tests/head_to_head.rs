use scoreboard::errors::ApiError;
use scoreboard::head_to_head::{get_common_player_games, get_head_to_head_histories, head_to_head_report};
use scoreboard::ids::{parse_i32, parse_id_list, parse_ids};
use scoreboard::stats::{GameMax, ScoreRow};

fn row(player_id: i32, game_id: i32, name: &str, points: i32) -> ScoreRow {
    ScoreRow { player_id, game_id, player_name: name.to_string(), points }
}

#[test]
fn head_to_head_counts_only_the_shared_game() {
    let rows = vec![
        row(1, 12, "ann", 9),
        row(2, 11, "bob", 4),
        row(1, 10, "ann", 6),
        row(2, 10, "bob", 8),
        row(3, 10, "cy", 1),
        row(1, 9, "ann", 7),
    ];
    let maxes = vec![
        GameMax { game_id: 12, max_score: 9 },
        GameMax { game_id: 11, max_score: 4 },
        GameMax { game_id: 10, max_score: 8 },
        GameMax { game_id: 9, max_score: 7 },
    ];
    let report = head_to_head_report("1,2", &rows, &maxes, None).expect("ids parse");
    assert_eq!(report.player_stats.len(), 2);
    for p in &report.player_stats {
        assert_eq!(p.games, 1);
    }
    let ann = report.player_stats.iter().find(|p| p.id == 1).unwrap();
    let bob = report.player_stats.iter().find(|p| p.id == 2).unwrap();
    assert_eq!((ann.points, ann.wins), (6, 0));
    assert_eq!((bob.points, bob.wins), (8, 1));
    assert_eq!(report.histories.len(), 2);
    assert_eq!(report.histories[0].id, 1);
    assert_eq!(report.histories[0].history, vec![6]);
    assert_eq!(report.histories[1].history, vec![8]);
}

#[test]
fn malformed_ids_are_a_validation_failure() {
    assert_eq!(parse_ids("1,,abc"), Err(()));
    let r = head_to_head_report("1,,abc", &[], &[], None);
    assert_eq!(r.err(), Some(ApiError::Validation));
    assert_eq!(ApiError::Validation.status_code(), 400);
}

#[test]
fn id_lists_skip_blank_pieces() {
    assert_eq!(parse_ids("1,,2"), Ok(vec![1, 2]));
    assert_eq!(parse_ids("1,  ,2,"), Ok(vec![1, 2]));
    assert_eq!(parse_ids(""), Ok(vec![]));
    assert_eq!(parse_id_list(" \t"), Ok(vec![]));
    assert_eq!(parse_id_list("\u{3000},7"), Ok(vec![7]));
}

#[test]
fn id_pieces_parse_as_i32() {
    assert_eq!(parse_ids("-5,+7,0"), Ok(vec![-5, 7, 0]));
    assert_eq!(parse_ids("1, 2"), Err(()));
    assert_eq!(parse_ids("2147483647,-2147483648"), Ok(vec![i32::MAX, i32::MIN]));
    assert_eq!(parse_ids("2147483648"), Err(()));
    assert_eq!(parse_ids("-2147483649"), Err(()));
    assert_eq!(parse_ids("99999999999999999999999"), Err(()));
    assert_eq!(parse_ids("-"), Err(()));
    assert_eq!(parse_ids("+"), Err(()));
    assert_eq!(parse_ids("1x"), Err(()));
    assert_eq!(parse_i32(&"0042".chars().collect()), Some(42));
    assert_eq!(parse_i32(&vec![]), None);
}

#[test]
fn ids_are_percent_decoded_first() {
    assert_eq!(parse_ids("1%2C2"), Ok(vec![1, 2]));
    assert_eq!(parse_ids("3%2c%204"), Err(()));
    assert_eq!(parse_ids("3%2C%2C4"), Ok(vec![3, 4]));
    assert_eq!(parse_ids("%FF"), Err(()));
}

#[test]
fn common_games_need_every_named_player() {
    let rows = vec![
        row(1, 3, "ann", 1),
        row(2, 3, "bob", 2),
        row(1, 2, "ann", 3),
        row(3, 2, "cy", 4),
        row(1, 1, "ann", 5),
        row(2, 1, "bob", 6),
        row(3, 1, "cy", 7),
    ];
    let common = get_common_player_games(&[1, 2], &rows);
    let got: Vec<(i32, i32)> = common.iter().map(|r| (r.player_id, r.game_id)).collect();
    assert_eq!(got, vec![(1, 3), (2, 3), (1, 1), (2, 1)]);
    let three = get_common_player_games(&[1, 2, 3], &rows);
    assert_eq!(three.iter().map(|r| r.game_id).collect::<Vec<_>>(), vec![1, 1, 1]);
    assert!(get_common_player_games(&[], &rows).is_empty());
    assert!(get_common_player_games(&[1, 4], &rows).is_empty());
    let repeated = get_common_player_games(&[1, 1], &rows);
    assert_eq!(repeated.len(), 3);
}

#[test]
fn histories_are_chronological_and_sorted_by_id() {
    let rows = vec![
        row(2, 3, "bob", 5),
        row(1, 3, "ann", 6),
        row(1, 2, "ann", 7),
        row(2, 2, "bob", 8),
        row(1, 1, "ann", 1),
        row(2, 1, "bob", 2),
    ];
    let all = get_head_to_head_histories(&rows, None);
    assert_eq!(all.iter().map(|h| h.id).collect::<Vec<_>>(), vec![1, 2]);
    assert_eq!(all[0].name, "ann");
    assert_eq!(all[0].history, vec![1, 7, 6]);
    assert_eq!(all[1].history, vec![2, 8, 5]);
    let capped = get_head_to_head_histories(&rows, Some(2));
    assert_eq!(capped[0].history, vec![7, 6]);
    assert_eq!(capped[1].history, vec![8, 5]);
    let none = get_head_to_head_histories(&rows, Some(0));
    assert_eq!(none.len(), 2);
    assert!(none[0].history.is_empty());
}
