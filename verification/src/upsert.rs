//! Idempotent upsert plans: batched, parameterized insert-on-conflict
//! statements keyed by each table's natural key, plus the store model they
//! are idempotent against. Values travel as bound parameters, never spliced
//! into the statement text.

use vstd::prelude::*;
use crate::decimal::{spec_decimal, usize_to_string};
use crate::github::RepositoryStarRecord;

verus! {

/// One warehouse row of per-bot, per-repository review activity on one day.
pub struct BotReviewInRepoDate {
    pub event_date: String,
    pub repo_db_id: i64,
    pub repo_full_name: String,
    pub bot_id: i64,
    pub bot_review_count: i64,
    pub pr_count: i64,
}

/// One bound parameter of a statement.
#[derive(Debug, Clone, PartialEq, Eq)]
pub enum SqlValue {
    Int(i64),
    Text(String),
    Bool(bool),
    Null,
}

/// One batched write: the statement text with `$n` placeholders and the
/// values bound to them, in placeholder order.
pub struct UpsertStatement {
    pub sql: String,
    pub params: Vec<SqlValue>,
}

// ---------------------------------------------------------------------------
// Store model and idempotence
// ---------------------------------------------------------------------------

/// The store state after upserting `rows` in order: each row overwrites
/// whatever its natural key held.
pub open spec fn spec_apply_upserts<K, V>(state: Map<K, V>, rows: Seq<V>, key_of: spec_fn(V) -> K) -> Map<K, V>
    decreases rows.len(),
{
    if rows.len() == 0 {
        state
    } else {
        spec_apply_upserts(state, rows.drop_last(), key_of).insert(
            key_of(rows.last()), rows.last())
    }
}

/// The last row of the batch carrying this key, if any.
pub open spec fn spec_last_with_key<K, V>(rows: Seq<V>, key_of: spec_fn(V) -> K, k: K) -> Option<V>
    decreases rows.len(),
{
    if rows.len() == 0 {
        None
    } else if key_of(rows.last()) == k {
        Some(rows.last())
    } else {
        spec_last_with_key(rows.drop_last(), key_of, k)
    }
}

proof fn lemma_apply_upserts_index<K, V>(state: Map<K, V>, rows: Seq<V>, key_of: spec_fn(V) -> K, k: K)
    ensures
        spec_apply_upserts(state, rows, key_of).dom().contains(k)
            <==> (state.dom().contains(k) || spec_last_with_key(rows, key_of, k) is Some),
        match spec_last_with_key(rows, key_of, k) {
            Some(v) => spec_apply_upserts(state, rows, key_of).dom().contains(k)
                && spec_apply_upserts(state, rows, key_of)[k] == v,
            None => state.dom().contains(k)
                ==> spec_apply_upserts(state, rows, key_of)[k] == state[k],
        },
    decreases rows.len(),
{
    if rows.len() > 0 {
        lemma_apply_upserts_index(state, rows.drop_last(), key_of, k);
    }
}

/// Upserting the same batch twice leaves the store exactly as upserting it
/// once does, whatever the store held before.
pub proof fn lemma_upsert_idempotent<K, V>(state: Map<K, V>, rows: Seq<V>, key_of: spec_fn(V) -> K)
    ensures
        spec_apply_upserts(spec_apply_upserts(state, rows, key_of), rows, key_of)
            == spec_apply_upserts(state, rows, key_of),
{
    let once = spec_apply_upserts(state, rows, key_of);
    let twice = spec_apply_upserts(once, rows, key_of);
    assert forall|k: K| #[trigger] twice.dom().contains(k) <==> once.dom().contains(k) by {
        lemma_apply_upserts_index(state, rows, key_of, k);
        lemma_apply_upserts_index(once, rows, key_of, k);
    };
    assert forall|k: K| once.dom().contains(k) implies #[trigger] twice[k] == once[k] by {
        lemma_apply_upserts_index(state, rows, key_of, k);
        lemma_apply_upserts_index(once, rows, key_of, k);
    };
    assert(twice =~= once);
}

/// The natural key of a review row.
pub open spec fn spec_bot_review_key(r: BotReviewInRepoDate) -> (String, i64, i64) {
    (r.event_date, r.bot_id, r.repo_db_id)
}

/// The natural key of a repository record.
pub open spec fn spec_star_record_key(r: RepositoryStarRecord) -> String {
    r.full_name
}

/// Review-table instance of the idempotence law.
pub proof fn lemma_bot_reviews_idempotent(
    state: Map<(String, i64, i64), BotReviewInRepoDate>,
    rows: Seq<BotReviewInRepoDate>,
)
    ensures
        spec_apply_upserts(
            spec_apply_upserts(state, rows, |r: BotReviewInRepoDate| spec_bot_review_key(r)),
            rows,
            |r: BotReviewInRepoDate| spec_bot_review_key(r),
        ) == spec_apply_upserts(state, rows, |r: BotReviewInRepoDate| spec_bot_review_key(r)),
{
    lemma_upsert_idempotent(state, rows, |r: BotReviewInRepoDate| spec_bot_review_key(r));
}

/// Repository-table instance of the idempotence law.
pub proof fn lemma_star_records_idempotent(
    state: Map<String, RepositoryStarRecord>,
    rows: Seq<RepositoryStarRecord>,
)
    ensures
        spec_apply_upserts(
            spec_apply_upserts(state, rows, |r: RepositoryStarRecord| spec_star_record_key(r)),
            rows,
            |r: RepositoryStarRecord| spec_star_record_key(r),
        ) == spec_apply_upserts(state, rows, |r: RepositoryStarRecord| spec_star_record_key(r)),
{
    lemma_upsert_idempotent(state, rows, |r: RepositoryStarRecord| spec_star_record_key(r));
}

// ---------------------------------------------------------------------------
// Placeholder text
// ---------------------------------------------------------------------------

/// `$start, $start+1, ...`: `c` placeholders from `start`.
pub open spec fn spec_col_list(start: int, c: int) -> Seq<char>
    decreases c,
{
    if c <= 0 {
        Seq::<char>::empty()
    } else {
        "$"@ + spec_decimal(start as nat) + if c >= 2 {
            ", "@ + spec_col_list(start + 1, c - 1)
        } else {
            Seq::<char>::empty()
        }
    }
}

/// `($1, .., $c), ($c+1, ..), ...`: one parenthesized group of `c`
/// placeholders per row, `n` rows.
pub open spec fn spec_groups(n: int, c: int) -> Seq<char>
    decreases n,
{
    if n <= 0 {
        Seq::<char>::empty()
    } else {
        spec_groups(n - 1, c) + (if n >= 2 { ", "@ } else { Seq::<char>::empty() })
            + "("@ + spec_col_list((n - 1) * c + 1, c) + ")"@
    }
}

fn build_col_list(start: usize, c: usize) -> (r: String)
    requires
        start >= 1,
        start as int + c as int <= usize::MAX as int,
    ensures
        r@ == spec_col_list(start as int, c as int),
    decreases c,
{
    if c == 0 {
        String::new()
    } else {
        let mut s = String::from_str("$");
        let digits = usize_to_string(start);
        s.append(digits.as_str());
        if c >= 2 {
            s.append(", ");
            let rest = build_col_list(start + 1, c - 1);
            s.append(rest.as_str());
        }
        proof {
            assert(s@ =~= spec_col_list(start as int, c as int));
        }
        s
    }
}

fn build_groups(n: usize, c: usize) -> (r: String)
    requires
        c >= 1,
        (n as int) * (c as int) + 1 <= usize::MAX as int,
    ensures
        r@ == spec_groups(n as int, c as int),
{
    let mut s = String::new();
    let mut i: usize = 0;
    proof {
        assert(s@ =~= spec_groups(0, c as int));
    }
    while i < n
        invariant
            i <= n,
            c >= 1,
            (n as int) * (c as int) + 1 <= usize::MAX as int,
            s@ == spec_groups(i as int, c as int),
        decreases n - i,
    {
        proof {
            vstd::arithmetic::mul::lemma_mul_inequality(i as int + 1, n as int, c as int);
            vstd::arithmetic::mul::lemma_mul_is_distributive_add_other_way(
                c as int, i as int, 1);
            assert((i as int) * (c as int) + (c as int) <= (n as int) * (c as int));
        }
        if i > 0 {
            s.append(", ");
        }
        s.append("(");
        let cols = build_col_list(i * c + 1, c);
        s.append(cols.as_str());
        s.append(")");
        proof {
            assert(s@ =~= spec_groups(i as int + 1, c as int));
        }
        i = i + 1;
    }
    s
}

// ---------------------------------------------------------------------------
// Review-table statement
// ---------------------------------------------------------------------------

/// The bound parameters of the review upsert, in placeholder order.
pub open spec fn spec_bot_review_params(rows: Seq<BotReviewInRepoDate>, upto: int) -> Seq<SqlValue>
    decreases upto,
{
    if upto <= 0 {
        Seq::<SqlValue>::empty()
    } else {
        spec_bot_review_params(rows, upto - 1) + seq![
            SqlValue::Text(rows[upto - 1].event_date),
            SqlValue::Int(rows[upto - 1].bot_id),
            SqlValue::Int(rows[upto - 1].repo_db_id),
            SqlValue::Text(rows[upto - 1].repo_full_name),
            SqlValue::Int(rows[upto - 1].bot_review_count),
            SqlValue::Int(rows[upto - 1].pr_count),
        ]
    }
}

/// The review upsert statement text for `n` rows.
pub open spec fn spec_bot_review_sql(n: int) -> Seq<char> {
    "INSERT INTO bot_reviews_daily_by_repo (event_date, bot_id, repo_db_id, repo_full_name, bot_review_count, pr_count) VALUES "@
        + spec_groups(n, 6)
        + " ON CONFLICT (event_date, bot_id, repo_db_id) DO UPDATE SET bot_review_count = EXCLUDED.bot_review_count, pr_count = EXCLUDED.pr_count, repo_full_name = EXCLUDED.repo_full_name"@
}

/// Build one idempotent batched write of review rows: insert each row, and
/// on a natural-key conflict overwrite exactly the count and name columns.
/// An empty batch performs no write.
pub fn build_bot_reviews_upsert(rows: &Vec<BotReviewInRepoDate>) -> (r: Option<UpsertStatement>)
    requires
        rows@.len() * 6 + 1 <= usize::MAX as int,
    ensures
        r is Some <==> rows@.len() > 0,
        r matches Some(st) ==> {
            &&& st.sql@ == spec_bot_review_sql(rows@.len() as int)
            &&& st.params@ == spec_bot_review_params(rows@, rows@.len() as int)
        },
{
    let n = rows.len();
    if n == 0 {
        return None;
    }
    let mut sql = String::from_str(
        "INSERT INTO bot_reviews_daily_by_repo (event_date, bot_id, repo_db_id, repo_full_name, bot_review_count, pr_count) VALUES ");
    let groups = build_groups(n, 6);
    sql.append(groups.as_str());
    sql.append(
        " ON CONFLICT (event_date, bot_id, repo_db_id) DO UPDATE SET bot_review_count = EXCLUDED.bot_review_count, pr_count = EXCLUDED.pr_count, repo_full_name = EXCLUDED.repo_full_name");
    let mut params: Vec<SqlValue> = Vec::new();
    let mut i: usize = 0;
    proof {
        assert(params@ =~= spec_bot_review_params(rows@, 0));
    }
    while i < n
        invariant
            i <= n,
            n == rows@.len(),
            params@ == spec_bot_review_params(rows@, i as int),
        decreases n - i,
    {
        let row = &rows[i];
        params.push(SqlValue::Text(row.event_date.clone()));
        params.push(SqlValue::Int(row.bot_id));
        params.push(SqlValue::Int(row.repo_db_id));
        params.push(SqlValue::Text(row.repo_full_name.clone()));
        params.push(SqlValue::Int(row.bot_review_count));
        params.push(SqlValue::Int(row.pr_count));
        proof {
            assert(params@ =~= spec_bot_review_params(rows@, i as int + 1));
        }
        i = i + 1;
    }
    proof {
        assert(sql@ =~= spec_bot_review_sql(n as int));
    }
    Some(UpsertStatement { sql, params })
}

// ---------------------------------------------------------------------------
// Repository-table statement
// ---------------------------------------------------------------------------

/// The bound parameters of the repository upsert, in placeholder order;
/// absent metadata binds NULL.
pub open spec fn spec_star_record_params(rows: Seq<RepositoryStarRecord>, upto: int) -> Seq<SqlValue>
    decreases upto,
{
    if upto <= 0 {
        Seq::<SqlValue>::empty()
    } else {
        spec_star_record_params(rows, upto - 1) + seq![
            SqlValue::Text(rows[upto - 1].full_name),
            match rows[upto - 1].node_id {
                Some(s) => SqlValue::Text(s),
                None => SqlValue::Null,
            },
            match rows[upto - 1].database_id {
                Some(v) => SqlValue::Int(v),
                None => SqlValue::Null,
            },
            match rows[upto - 1].star_count {
                Some(v) => SqlValue::Int(v),
                None => SqlValue::Null,
            },
            SqlValue::Bool(rows[upto - 1].is_error),
            SqlValue::Text(rows[upto - 1].updated_at),
        ]
    }
}

/// The repository upsert statement text for `n` records.
pub open spec fn spec_star_record_sql(n: int) -> Seq<char> {
    "INSERT INTO github_repositories_by_name (full_name, node_id, database_id, star_count, is_error, updated_at) VALUES "@
        + spec_groups(n, 6)
        + " ON CONFLICT (full_name) DO UPDATE SET node_id = EXCLUDED.node_id, database_id = EXCLUDED.database_id, star_count = EXCLUDED.star_count, is_error = EXCLUDED.is_error, updated_at = EXCLUDED.updated_at"@
}

/// Build one idempotent batched write of repository records: insert each
/// record, and on a conflict of the identity overwrite all metadata
/// columns, the error flag and the timestamp. An empty batch performs no
/// write.
pub fn build_star_records_upsert(records: &Vec<RepositoryStarRecord>) -> (r: Option<UpsertStatement>)
    requires
        records@.len() * 6 + 1 <= usize::MAX as int,
    ensures
        r is Some <==> records@.len() > 0,
        r matches Some(st) ==> {
            &&& st.sql@ == spec_star_record_sql(records@.len() as int)
            &&& st.params@ == spec_star_record_params(records@, records@.len() as int)
        },
{
    let n = records.len();
    if n == 0 {
        return None;
    }
    let mut sql = String::from_str(
        "INSERT INTO github_repositories_by_name (full_name, node_id, database_id, star_count, is_error, updated_at) VALUES ");
    let groups = build_groups(n, 6);
    sql.append(groups.as_str());
    sql.append(
        " ON CONFLICT (full_name) DO UPDATE SET node_id = EXCLUDED.node_id, database_id = EXCLUDED.database_id, star_count = EXCLUDED.star_count, is_error = EXCLUDED.is_error, updated_at = EXCLUDED.updated_at");
    let mut params: Vec<SqlValue> = Vec::new();
    let mut i: usize = 0;
    proof {
        assert(params@ =~= spec_star_record_params(records@, 0));
    }
    while i < n
        invariant
            i <= n,
            n == records@.len(),
            params@ == spec_star_record_params(records@, i as int),
        decreases n - i,
    {
        let rec = &records[i];
        params.push(SqlValue::Text(rec.full_name.clone()));
        params.push(match &rec.node_id {
            Some(s) => SqlValue::Text(s.clone()),
            None => SqlValue::Null,
        });
        params.push(match rec.database_id {
            Some(v) => SqlValue::Int(v),
            None => SqlValue::Null,
        });
        params.push(match rec.star_count {
            Some(v) => SqlValue::Int(v),
            None => SqlValue::Null,
        });
        params.push(SqlValue::Bool(rec.is_error));
        params.push(SqlValue::Text(rec.updated_at.clone()));
        proof {
            assert(params@ =~= spec_star_record_params(records@, i as int + 1));
        }
        i = i + 1;
    }
    proof {
        assert(sql@ =~= spec_star_record_sql(n as int));
    }
    Some(UpsertStatement { sql, params })
}

} // verus!
