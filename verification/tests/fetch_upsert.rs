use devtools_api_rust::alias::{alias_for, chunk_identities, index_for};
use devtools_api_rust::github::{
    build_batch_query, chunk_star_counts, classify_chunk, classify_response, reconcile,
    slash_pos, star_counts_from_response, AliasEntry, AliasFields, BatchEvent,
};
use devtools_api_rust::upsert::{
    build_bot_reviews_upsert, build_star_records_upsert, BotReviewInRepoDate, SqlValue,
};
use devtools_api_rust::decimal::i64_to_string;
use devtools_api_rust::bq::build_bot_reviews_query;

fn entry(alias: &str, repo: Option<AliasFields>) -> AliasEntry {
    AliasEntry { alias: alias.to_string(), repo }
}

fn full_fields(stars: i64, node: &str, dbid: i64) -> AliasFields {
    AliasFields {
        star_count: Some(stars),
        node_id: Some(node.to_string()),
        database_id: Some(dbid),
    }
}

#[test]
fn alias_round_trip() {
    assert_eq!(alias_for(0), "r0");
    assert_eq!(alias_for(7), "r7");
    assert_eq!(alias_for(123), "r123");
    assert_eq!(index_for("r0"), Some(0));
    assert_eq!(index_for("r123"), Some(123));
    assert_eq!(index_for(&alias_for(42)), Some(42));
}

#[test]
fn alias_rejects_non_canonical_forms() {
    assert_eq!(index_for(""), None);
    assert_eq!(index_for("r"), None);
    assert_eq!(index_for("x1"), None);
    assert_eq!(index_for("r07"), None);
    assert_eq!(index_for("r1a"), None);
}

#[test]
fn chunking_preserves_order_and_sizes() {
    let ids: Vec<String> = ["a", "b", "c", "d", "e"].iter().map(|s| s.to_string()).collect();
    let chunks = chunk_identities(&ids, 2);
    assert_eq!(chunks.len(), 3);
    assert_eq!(chunks[0], vec!["a".to_string(), "b".to_string()]);
    assert_eq!(chunks[1], vec!["c".to_string(), "d".to_string()]);
    assert_eq!(chunks[2], vec!["e".to_string()]);
    let one = chunk_identities(&ids, 100);
    assert_eq!(one.len(), 1);
    assert_eq!(one[0], ids);
}

#[test]
fn slash_split_positions() {
    assert_eq!(slash_pos("owner/name"), Some(5));
    assert_eq!(slash_pos("a/b/c"), Some(1));
    assert_eq!(slash_pos("noslash"), None);
}

#[test]
fn batch_query_text_is_exact() {
    let chunk = vec!["octo/repo".to_string(), "bad".to_string(), "a/b".to_string()];
    let q = build_batch_query(&chunk);
    let expected = "query { r0: repository(owner:\"octo\", name:\"repo\") { stargazerCount id databaseId }\nr2: repository(owner:\"a\", name:\"b\") { stargazerCount id databaseId }\n }";
    assert_eq!(q, expected);
}

#[test]
fn classify_batch_second_object_absent() {
    let chunk = vec!["octo/one".to_string(), "octo/two".to_string()];
    let entries = vec![
        entry("r0", Some(full_fields(5, "N1", 11))),
        entry("r1", None),
    ];
    let now = "2024-05-01T00:00:00+00:00".to_string();
    let (resolved, failed) = classify_chunk(&chunk, &BatchEvent::Data(entries), &now);
    assert_eq!(resolved.len(), 1);
    assert_eq!(resolved[0].full_name, "octo/one");
    assert_eq!(resolved[0].node_id, "N1");
    assert_eq!(resolved[0].database_id, 11);
    assert_eq!(resolved[0].star_count, 5);
    assert!(!resolved[0].is_error);
    assert_eq!(resolved[0].updated_at, now);
    assert_eq!(failed, vec!["octo/two".to_string()]);
}

#[test]
fn classify_batch_missing_alias_and_incomplete_fields_fail() {
    let chunk = vec!["a/a".to_string(), "b/b".to_string(), "c/c".to_string()];
    let entries = vec![
        // a/a has no entry at all -> failed
        entry("r1", Some(AliasFields {
            star_count: Some(3),
            node_id: None,
            database_id: Some(1),
        })), // incomplete -> failed
        entry("r2", Some(full_fields(9, "N", 2))), // resolved
    ];
    let now = "now".to_string();
    let (resolved, failed) = classify_chunk(&chunk, &BatchEvent::Data(entries), &now);
    assert_eq!(resolved.len(), 1);
    assert_eq!(resolved[0].full_name, "c/c");
    assert_eq!(failed, vec!["a/a".to_string(), "b/b".to_string()]);
}

#[test]
fn classify_whole_batch_failure_marks_all_failed() {
    let chunk = vec!["a/a".to_string(), "bad".to_string()];
    let now = "now".to_string();
    let (resolved, failed) = classify_chunk(&chunk, &BatchEvent::Failure, &now);
    assert_eq!(resolved.len(), 0);
    assert_eq!(failed, chunk);
}

#[test]
fn classification_accounts_for_every_wellformed_identity() {
    let ids: Vec<String> = (0..5).map(|i| format!("owner/repo{}", i)).collect();
    let chunks = chunk_identities(&ids, 2);
    let now = "now".to_string();
    let events = vec![
        BatchEvent::Data(vec![
            entry("r0", Some(full_fields(1, "A", 1))),
            entry("r1", None),
        ]),
        BatchEvent::Failure,
        BatchEvent::Data(vec![entry("r0", Some(full_fields(2, "B", 2)))]),
    ];
    let mut total_resolved = 0;
    let mut total_failed = 0;
    for (chunk, event) in chunks.iter().zip(events.iter()) {
        let (res, fail) = classify_chunk(chunk, event, &now);
        total_resolved += res.len();
        total_failed += fail.len();
    }
    assert_eq!(total_resolved + total_failed, ids.len());
}

#[test]
fn classify_response_parses_real_json() {
    let chunk = vec!["octo/one".to_string(), "octo/two".to_string()];
    let body = "{\"data\":{\"r0\":{\"stargazerCount\":5,\"id\":\"N1\",\"databaseId\":11},\"r1\":null}}";
    let now = "now".to_string();
    let (resolved, failed) = classify_response(&chunk, body, &now);
    assert_eq!(resolved.len(), 1);
    assert_eq!(resolved[0].full_name, "octo/one");
    assert_eq!(resolved[0].star_count, 5);
    assert_eq!(failed, vec!["octo/two".to_string()]);
}

#[test]
fn classify_response_bad_body_fails_batch() {
    let chunk = vec!["octo/one".to_string()];
    let now = "now".to_string();
    let (resolved, failed) = classify_response(&chunk, "not json", &now);
    assert_eq!(resolved.len(), 0);
    assert_eq!(failed, chunk);
    let (r2, f2) = classify_response(&chunk, "{\"errors\":[]}", &now);
    assert_eq!(r2.len(), 0);
    assert_eq!(f2, chunk);
}

#[test]
fn star_counts_keep_only_present_counts() {
    let chunk = vec!["a/a".to_string(), "b/b".to_string()];
    let entries = vec![
        entry("r0", Some(AliasFields {
            star_count: Some(42),
            node_id: None,
            database_id: None,
        })),
        entry("r1", Some(AliasFields {
            star_count: None,
            node_id: Some("X".to_string()),
            database_id: Some(1),
        })),
    ];
    let out = chunk_star_counts(&chunk, &BatchEvent::Data(entries));
    assert_eq!(out, vec![("a/a".to_string(), 42)]);
    let none = chunk_star_counts(&chunk, &BatchEvent::Failure);
    assert_eq!(none.len(), 0);
}

#[test]
fn reconcile_emits_one_record_per_identity() {
    let now = "T".to_string();
    let chunk = vec!["a/a".to_string(), "b/b".to_string()];
    let entries = vec![entry("r0", Some(full_fields(7, "N", 3)))];
    let (resolved, failed) = classify_chunk(&chunk, &BatchEvent::Data(entries), &now);
    let records = reconcile(&resolved, &failed, &now);
    assert_eq!(records.len(), 2);
    assert_eq!(records[0].full_name, "a/a");
    assert!(!records[0].is_error);
    assert_eq!(records[0].star_count, Some(7));
    assert_eq!(records[0].node_id, Some("N".to_string()));
    assert_eq!(records[0].database_id, Some(3));
    assert_eq!(records[1].full_name, "b/b");
    assert!(records[1].is_error);
    assert_eq!(records[1].star_count, None);
    assert_eq!(records[1].node_id, None);
    assert_eq!(records[1].updated_at, "T");
}

fn review_row(date: &str, bot: i64, repo: i64, count: i64) -> BotReviewInRepoDate {
    BotReviewInRepoDate {
        event_date: date.to_string(),
        repo_db_id: repo,
        repo_full_name: format!("owner/repo{}", repo),
        bot_id: bot,
        bot_review_count: count,
        pr_count: count,
    }
}

#[test]
fn bot_reviews_upsert_statement_is_exact() {
    let rows = vec![review_row("2024-01-01", 1, 10, 3), review_row("2024-01-01", 2, 11, 5)];
    let st = build_bot_reviews_upsert(&rows).unwrap();
    let expected = "INSERT INTO bot_reviews_daily_by_repo (event_date, bot_id, repo_db_id, repo_full_name, bot_review_count, pr_count) VALUES ($1, $2, $3, $4, $5, $6), ($7, $8, $9, $10, $11, $12) ON CONFLICT (event_date, bot_id, repo_db_id) DO UPDATE SET bot_review_count = EXCLUDED.bot_review_count, pr_count = EXCLUDED.pr_count, repo_full_name = EXCLUDED.repo_full_name";
    assert_eq!(st.sql, expected);
    assert_eq!(st.params.len(), 12);
    assert_eq!(st.params[0], SqlValue::Text("2024-01-01".to_string()));
    assert_eq!(st.params[1], SqlValue::Int(1));
    assert_eq!(st.params[2], SqlValue::Int(10));
    assert_eq!(st.params[3], SqlValue::Text("owner/repo10".to_string()));
    assert_eq!(st.params[7], SqlValue::Int(2));
}

#[test]
fn empty_batches_perform_no_write() {
    assert!(build_bot_reviews_upsert(&vec![]).is_none());
    assert!(build_star_records_upsert(&vec![]).is_none());
}

#[test]
fn repeated_upsert_build_is_identical() {
    let rows = vec![review_row("2024-01-02", 1, 10, 3)];
    let a = build_bot_reviews_upsert(&rows).unwrap();
    let b = build_bot_reviews_upsert(&rows).unwrap();
    assert_eq!(a.sql, b.sql);
    assert_eq!(a.params, b.params);
}

#[test]
fn star_records_upsert_binds_null_for_absent_metadata() {
    let now = "T".to_string();
    let resolved = vec![];
    let failed = vec!["a/a".to_string()];
    let records = reconcile(&resolved, &failed, &now);
    let st = build_star_records_upsert(&records).unwrap();
    assert!(st.sql.starts_with(
        "INSERT INTO github_repositories_by_name (full_name, node_id, database_id, star_count, is_error, updated_at) VALUES ($1, $2, $3, $4, $5, $6) ON CONFLICT (full_name) DO UPDATE SET "));
    assert_eq!(st.params.len(), 6);
    assert_eq!(st.params[0], SqlValue::Text("a/a".to_string()));
    assert_eq!(st.params[1], SqlValue::Null);
    assert_eq!(st.params[2], SqlValue::Null);
    assert_eq!(st.params[3], SqlValue::Null);
    assert_eq!(st.params[4], SqlValue::Bool(true));
    assert_eq!(st.params[5], SqlValue::Text("T".to_string()));
}

#[test]
fn signed_decimal_rendering() {
    assert_eq!(i64_to_string(0), "0");
    assert_eq!(i64_to_string(-120), "-120");
    assert_eq!(i64_to_string(i64::MAX), "9223372036854775807");
    assert_eq!(i64_to_string(i64::MIN), "-9223372036854775808");
}

#[test]
fn day_query_splices_validated_date_and_bot_list() {
    let q = build_bot_reviews_query("2024-01-05", &vec![1, -2, 30]).unwrap();
    assert!(q.starts_with("\nDECLARE target_date DATE DEFAULT DATE('2024-01-05');"));
    assert!(q.contains("ARRAY<INT64> DEFAULT [1, -2, 30];"));
    assert!(q.contains("PullRequestReviewEvent"));
    assert!(build_bot_reviews_query("2024-01-05'; DROP TABLE x;--", &vec![1]).is_none());
    assert!(build_bot_reviews_query("2024-13-05", &vec![1]).is_none());
}

#[test]
fn star_counts_from_real_json() {
    let chunk = vec!["o/r".to_string()];
    let body = "{\"data\":{\"r0\":{\"stargazerCount\":7}}}";
    let out = star_counts_from_response(&chunk, body);
    assert_eq!(out, vec![("o/r".to_string(), 7)]);
    assert_eq!(star_counts_from_response(&chunk, "not json").len(), 0);
}
