use devtools_api_rust::cache::{cache_control_header_value, seconds_until_reset_from};
use devtools_api_rust::dates::{date_from_str, parse_date_yyyy_mm_dd};
use devtools_api_rust::decimal::{parse_decimal, usize_to_string};
use devtools_api_rust::params::{
    validate_days_back, validate_limit, validate_top_repos, validate_view_type, view_table_name,
    LeaderboardQueryParams, TopReposQueryParams, ViewKind, DEFAULT_START_DATE,
};
use devtools_api_rust::rank::{rank_top_repos, RepoRow};
use devtools_api_rust::series::{densify, leaderboard_from_rows, RawSeriesRow, SeriesPoint};

#[test]
fn densify_empty_input_gives_empty_matrix() {
    let rows: Vec<SeriesPoint> = vec![];
    let out = densify(&rows);
    assert_eq!(out.timestamps.len(), 0);
    assert_eq!(out.tools.len(), 0);
}

#[test]
fn densify_zero_fills_and_sorts() {
    let rows = vec![
        SeriesPoint { date_ts: 300, key: 9, value: 7 },
        SeriesPoint { date_ts: 100, key: 9, value: 4 },
        SeriesPoint { date_ts: 200, key: 5, value: 2 },
    ];
    let out = densify(&rows);
    assert_eq!(out.timestamps, vec![100, 200, 300]);
    assert_eq!(out.tools.len(), 2);
    assert_eq!(out.tools[0].key, 9);
    assert_eq!(out.tools[0].values, vec![4, 0, 7]);
    assert_eq!(out.tools[1].key, 5);
    assert_eq!(out.tools[1].values, vec![0, 2, 0]);
}

#[test]
fn densify_last_point_wins_per_cell() {
    let rows = vec![
        SeriesPoint { date_ts: 100, key: 1, value: 3 },
        SeriesPoint { date_ts: 100, key: 1, value: 8 },
    ];
    let out = densify(&rows);
    assert_eq!(out.timestamps, vec![100]);
    assert_eq!(out.tools.len(), 1);
    assert_eq!(out.tools[0].values, vec![8]);
}

#[test]
fn leaderboard_scenario_two_bots_two_days() {
    let rows = vec![
        RawSeriesRow { event_date: "2024-01-01".to_string(), bot_id: 1, repo_count: 3 },
        RawSeriesRow { event_date: "2024-01-03".to_string(), bot_id: 1, repo_count: 5 },
        RawSeriesRow { event_date: "2024-01-01".to_string(), bot_id: 2, repo_count: 1 },
    ];
    let out = leaderboard_from_rows(&rows);
    assert_eq!(out.timestamps, vec![1704067200, 1704240000]);
    assert_eq!(out.tools.len(), 2);
    assert_eq!(out.tools[0].key, 1);
    assert_eq!(out.tools[0].values, vec![3, 5]);
    assert_eq!(out.tools[1].key, 2);
    assert_eq!(out.tools[1].values, vec![1, 0]);
}

#[test]
fn leaderboard_skips_unparseable_dates() {
    let rows = vec![
        RawSeriesRow { event_date: "2024-01-01".to_string(), bot_id: 1, repo_count: 3 },
        RawSeriesRow { event_date: "not-a-date".to_string(), bot_id: 1, repo_count: 9 },
    ];
    let out = leaderboard_from_rows(&rows);
    assert_eq!(out.timestamps, vec![1704067200]);
    assert_eq!(out.tools.len(), 1);
    assert_eq!(out.tools[0].values, vec![3]);
}

#[test]
fn ranker_scenario_excludes_null_scores_and_orders_desc() {
    let rows = vec![
        RepoRow { bot_id: 7, repo_db_id: 1, repo_name: "a/a".to_string(), star_count: Some(50) },
        RepoRow { bot_id: 7, repo_db_id: 2, repo_name: "b/b".to_string(), star_count: None },
        RepoRow { bot_id: 7, repo_db_id: 3, repo_name: "c/c".to_string(), star_count: Some(200) },
        RepoRow { bot_id: 7, repo_db_id: 4, repo_name: "d/d".to_string(), star_count: Some(10) },
    ];
    let out = rank_top_repos(&rows, 3);
    assert_eq!(out.len(), 1);
    assert_eq!(out[0].bot_id, 7);
    let stars: Vec<i64> = out[0].repos.iter().map(|r| r.star_count).collect();
    assert_eq!(stars, vec![200, 50, 10]);
    assert_eq!(out[0].repos[0].repo_name, "c/c");
    assert_eq!(out[0].repos[0].repo_db_id, 3);
}

#[test]
fn ranker_cuts_to_n_and_keeps_tie_input_order() {
    let rows = vec![
        RepoRow { bot_id: 1, repo_db_id: 11, repo_name: "x/a".to_string(), star_count: Some(5) },
        RepoRow { bot_id: 1, repo_db_id: 12, repo_name: "x/b".to_string(), star_count: Some(5) },
        RepoRow { bot_id: 1, repo_db_id: 13, repo_name: "x/c".to_string(), star_count: Some(9) },
    ];
    let out = rank_top_repos(&rows, 2);
    assert_eq!(out[0].repos.len(), 2);
    assert_eq!(out[0].repos[0].repo_db_id, 13);
    // equal scores keep input order: 11 before 12
    assert_eq!(out[0].repos[1].repo_db_id, 11);
}

#[test]
fn ranker_drops_empty_groups_and_orders_groups_first_seen() {
    let rows = vec![
        RepoRow { bot_id: 4, repo_db_id: 1, repo_name: "a/a".to_string(), star_count: None },
        RepoRow { bot_id: 2, repo_db_id: 2, repo_name: "b/b".to_string(), star_count: Some(1) },
        RepoRow { bot_id: 9, repo_db_id: 3, repo_name: "c/c".to_string(), star_count: Some(2) },
    ];
    let out = rank_top_repos(&rows, 5);
    let keys: Vec<i64> = out.iter().map(|g| g.bot_id).collect();
    assert_eq!(keys, vec![2, 9]);
}

#[test]
fn date_parse_exact_timestamps() {
    assert_eq!(parse_date_yyyy_mm_dd("1970-01-01"), Some(0));
    assert_eq!(parse_date_yyyy_mm_dd("2024-01-01"), Some(1704067200));
    assert_eq!(parse_date_yyyy_mm_dd("2023-07-01"), Some(1688169600));
    assert_eq!(parse_date_yyyy_mm_dd("1969-12-31"), Some(-86400));
}

#[test]
fn date_parse_rejects_bad_shapes_and_impossible_dates() {
    assert_eq!(parse_date_yyyy_mm_dd(""), None);
    assert_eq!(parse_date_yyyy_mm_dd("2024-1-1"), None);
    assert_eq!(parse_date_yyyy_mm_dd("2024/01/01"), None);
    assert_eq!(parse_date_yyyy_mm_dd("2023-02-29"), None);
    assert_eq!(parse_date_yyyy_mm_dd("2024-02-29"), Some(1709164800));
    assert_eq!(parse_date_yyyy_mm_dd("2024-13-01"), None);
    assert_eq!(parse_date_yyyy_mm_dd("2024-00-10"), None);
    assert_eq!(parse_date_yyyy_mm_dd("2024-04-31"), None);
    assert!(date_from_str("2024-06-30").is_some());
}

#[test]
fn decimal_round_trip_and_canonical_rejection() {
    assert_eq!(usize_to_string(0), "0");
    assert_eq!(usize_to_string(120), "120");
    assert_eq!(parse_decimal("120"), Some(120));
    assert_eq!(parse_decimal("0"), Some(0));
    assert_eq!(parse_decimal("012"), None);
    assert_eq!(parse_decimal(""), None);
    assert_eq!(parse_decimal("1x"), None);
}

#[test]
fn view_type_validation_accepts_both_views_and_defaults_weekly() {
    let weekly = validate_view_type(&LeaderboardQueryParams { view_type: None }).unwrap();
    assert!(matches!(weekly, ViewKind::Weekly));
    let w = validate_view_type(&LeaderboardQueryParams {
        view_type: Some("weekly".to_string()),
    }).unwrap();
    assert!(matches!(w, ViewKind::Weekly));
    let m = validate_view_type(&LeaderboardQueryParams {
        view_type: Some("monthly".to_string()),
    }).unwrap();
    assert!(matches!(m, ViewKind::Monthly));
    assert_eq!(view_table_name(w), "mv_bot_reviews_repo_7d");
    assert_eq!(view_table_name(m), "mv_bot_reviews_repo_30d");
}

#[test]
fn view_type_daily_is_rejected_with_exact_message() {
    let r = validate_view_type(&LeaderboardQueryParams { view_type: Some("daily".to_string()) });
    match r {
        Err(m) => assert_eq!(m, "Invalid viewType. Must be \"weekly\" or \"monthly\""),
        Ok(_) => panic!("daily must be rejected"),
    }
}

#[test]
fn limit_and_days_back_ranges() {
    assert_eq!(validate_limit(None).unwrap(), 5);
    assert_eq!(validate_limit(Some(1)).unwrap(), 1);
    assert_eq!(validate_limit(Some(20)).unwrap(), 20);
    assert_eq!(
        validate_limit(Some(0)).unwrap_err(),
        "Invalid limit. Must be between 1 and 20"
    );
    assert_eq!(
        validate_limit(Some(21)).unwrap_err(),
        "Invalid limit. Must be between 1 and 20"
    );
    assert_eq!(validate_days_back(None).unwrap(), 30);
    assert_eq!(validate_days_back(Some(365)).unwrap(), 365);
    assert_eq!(
        validate_days_back(Some(366)).unwrap_err(),
        "Invalid daysBack. Must be between 1 and 365"
    );
    assert_eq!(
        validate_days_back(Some(0)).unwrap_err(),
        "Invalid daysBack. Must be between 1 and 365"
    );
}

#[test]
fn top_repos_params_validate_limit_first() {
    let ok = validate_top_repos(&TopReposQueryParams { limit: None, days_back: None });
    assert_eq!(ok.unwrap(), (5, 30));
    let both_bad = validate_top_repos(&TopReposQueryParams { limit: Some(0), days_back: Some(0) });
    assert_eq!(both_bad.unwrap_err(), "Invalid limit. Must be between 1 and 20");
    let days_bad = validate_top_repos(&TopReposQueryParams { limit: Some(3), days_back: Some(400) });
    assert_eq!(days_bad.unwrap_err(), "Invalid daysBack. Must be between 1 and 365");
}

#[test]
fn cache_countdown_boundaries() {
    // midnight to 06:00 is 21600 seconds
    assert_eq!(seconds_until_reset_from(0, 6, 0), 21600);
    // exactly on the boundary rolls a whole day
    assert_eq!(seconds_until_reset_from(21600, 6, 0), 86400);
    // one second past the boundary
    assert_eq!(seconds_until_reset_from(21601, 6, 0), 86399);
    // a negative clock still counts down correctly
    assert_eq!(seconds_until_reset_from(-1, 0, 0), 1);
}

#[test]
fn cache_header_shape() {
    let v = cache_control_header_value();
    assert!(v.starts_with("public, max-age=0, s-maxage="));
    assert!(v.ends_with(", stale-while-revalidate=60"));
    let middle = &v["public, max-age=0, s-maxage=".len()..v.len() - ", stale-while-revalidate=60".len()];
    let ttl: u64 = middle.parse().unwrap();
    assert!(0 < ttl && ttl <= 86400);
}

#[test]
fn default_start_date_is_fixed() {
    assert_eq!(DEFAULT_START_DATE, "2023-07-01");
}
