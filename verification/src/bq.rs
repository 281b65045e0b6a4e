//! The one warehouse query shape the backfill uses: per-bot, per-repository
//! review counts of a single day. The date is only spliced after it proves
//! to be a real `YYYY-MM-DD` date, and the bot list is rendered digit by
//! digit, so nothing but a date and integers can reach the statement text.

use vstd::prelude::*;
use crate::dates::{date_from_str, spec_date_format, spec_date_of_str};
use crate::decimal::{i64_to_string, spec_int_decimal};

verus! {

/// The bot identities of the first `upto` entries, comma-separated.
pub open spec fn spec_bot_list(ids: Seq<i64>, upto: int) -> Seq<char>
    decreases upto,
{
    if upto <= 0 {
        Seq::<char>::empty()
    } else {
        spec_bot_list(ids, upto - 1) + (if upto >= 2 { ", "@ } else { Seq::<char>::empty() })
            + spec_int_decimal(ids[upto - 1] as int)
    }
}

/// The whole day query: the validated date and the bot list spliced into
/// the fixed statement shape.
pub open spec fn spec_bot_reviews_query(date: Seq<char>, ids: Seq<i64>) -> Seq<char> {
    "\nDECLARE target_date DATE DEFAULT DATE('"@ + date
        + "');\nDECLARE bot_id_list ARRAY<INT64> DEFAULT ["@ + spec_bot_list(ids, ids.len() as int)
        + "];\n\nSELECT\n  target_date                     AS event_date,\n  ARRAY_AGG(repo.name ORDER BY repo.name DESC LIMIT 1)[OFFSET(0)] AS repo_name,\n  repo.id                        AS repo_db_id,\n  actor.id                       AS bot_id,\n  COUNT(*)                       AS bot_review_count,\n  COUNT(DISTINCT JSON_EXTRACT_SCALAR(payload, '$.pull_request.id')) AS pr_count\nFROM `githubarchive.day.20*`\nWHERE _TABLE_SUFFIX = FORMAT_DATE('%y%m%d', target_date)\n  AND type          = 'PullRequestReviewEvent'\n  AND actor.id      IN UNNEST(bot_id_list)\nGROUP BY repo.id, actor.id, target_date;\n"@
}

/// Render the comma-separated bot list.
fn build_bot_list(ids: &Vec<i64>) -> (r: String)
    ensures
        r@ == spec_bot_list(ids@, ids@.len() as int),
{
    let n = ids.len();
    let mut s = String::new();
    let mut i: usize = 0;
    proof {
        assert(s@ =~= spec_bot_list(ids@, 0));
    }
    while i < n
        invariant
            i <= n,
            n == ids@.len(),
            s@ == spec_bot_list(ids@, i as int),
        decreases n - i,
    {
        if i > 0 {
            s.append(", ");
        }
        let d = i64_to_string(ids[i]);
        s.append(d.as_str());
        proof {
            assert(s@ =~= spec_bot_list(ids@, i as int + 1));
        }
        i = i + 1;
    }
    s
}

/// Build the day query: `Some` exactly when `target_date` is a real
/// `YYYY-MM-DD` date; nothing else is ever spliced into the text.
pub fn build_bot_reviews_query(target_date: &str, bot_ids: &Vec<i64>) -> (r: Option<String>)
    ensures
        r is Some <==> (spec_date_format(target_date@) && spec_date_of_str(target_date@).valid()),
        r matches Some(q) ==> q@ == spec_bot_reviews_query(target_date@, bot_ids@),
{
    match date_from_str(target_date) {
        None => None,
        Some(_) => {
            let mut q = String::from_str("\nDECLARE target_date DATE DEFAULT DATE('");
            q.append(target_date);
            q.append("');\nDECLARE bot_id_list ARRAY<INT64> DEFAULT [");
            let list = build_bot_list(bot_ids);
            q.append(list.as_str());
            q.append("];\n\nSELECT\n  target_date                     AS event_date,\n  ARRAY_AGG(repo.name ORDER BY repo.name DESC LIMIT 1)[OFFSET(0)] AS repo_name,\n  repo.id                        AS repo_db_id,\n  actor.id                       AS bot_id,\n  COUNT(*)                       AS bot_review_count,\n  COUNT(DISTINCT JSON_EXTRACT_SCALAR(payload, '$.pull_request.id')) AS pr_count\nFROM `githubarchive.day.20*`\nWHERE _TABLE_SUFFIX = FORMAT_DATE('%y%m%d', target_date)\n  AND type          = 'PullRequestReviewEvent'\n  AND actor.id      IN UNNEST(bot_id_list)\nGROUP BY repo.id, actor.id, target_date;\n");
            proof {
                assert(q@ =~= spec_bot_reviews_query(target_date@, bot_ids@));
            }
            Some(q)
        },
    }
}

} // verus!
