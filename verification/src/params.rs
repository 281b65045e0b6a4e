//! Query-parameter validation of the serving API: the view selector and the
//! `limit` / `daysBack` ranges, with the exact error message each invalid
//! input earns.

use vstd::prelude::*;

verus! {

/// First day of recorded activity: the serving queries never look further
/// back.
pub const DEFAULT_START_DATE: &'static str = "2023-07-01";

/// The two materialized aggregation windows a leaderboard can be served
/// from.
#[derive(Clone, Copy, PartialEq, Eq, Structural)]
pub enum ViewKind {
    Weekly,
    Monthly,
}

/// Raw query parameters of the leaderboard endpoint.
pub struct LeaderboardQueryParams {
    pub view_type: Option<String>,
}

/// Raw query parameters of the top-repositories endpoint.
pub struct TopReposQueryParams {
    pub limit: Option<i32>,
    pub days_back: Option<i32>,
}

/// Character-wise string equality.
pub fn str_eq(a: &str, b: &str) -> (r: bool)
    ensures
        r == (a@ == b@),
{
    let n = a.unicode_len();
    if n != b.unicode_len() {
        return false;
    }
    let mut i: usize = 0;
    while i < n
        invariant
            i <= n,
            n == a@.len(),
            n == b@.len(),
            forall|q: int| 0 <= q < i ==> a@[q] == b@[q],
        decreases n - i,
    {
        if a.get_char(i) != b.get_char(i) {
            return false;
        }
        i = i + 1;
    }
    proof {
        assert(a@ =~= b@);
    }
    true
}

/// An absent selector defaults to weekly; anything but `weekly` or
/// `monthly` is rejected with the exact message the API serves.
pub fn validate_view_type(params: &LeaderboardQueryParams) -> (r: Result<ViewKind, String>)
    ensures
        r is Ok <==> (params.view_type is None
            || params.view_type->0@ == "weekly"@
            || params.view_type->0@ == "monthly"@),
        r is Ok ==> ((r->Ok_0 == ViewKind::Monthly) <==> (params.view_type is Some
            && params.view_type->0@ == "monthly"@)),
        r is Err ==> r->Err_0@ == "Invalid viewType. Must be \"weekly\" or \"monthly\""@,
{
    proof {
        reveal_strlit("weekly");
        reveal_strlit("monthly");
        assert("weekly"@.len() != "monthly"@.len());
    }
    match &params.view_type {
        None => Ok(ViewKind::Weekly),
        Some(s) => {
            if str_eq(s.as_str(), "weekly") {
                Ok(ViewKind::Weekly)
            } else if str_eq(s.as_str(), "monthly") {
                Ok(ViewKind::Monthly)
            } else {
                Err(String::from_str("Invalid viewType. Must be \"weekly\" or \"monthly\""))
            }
        },
    }
}

/// The materialized view a kind is served from.
pub fn view_table_name(k: ViewKind) -> (r: &'static str)
    ensures
        k == ViewKind::Weekly ==> r@ == "mv_bot_reviews_repo_7d"@,
        k == ViewKind::Monthly ==> r@ == "mv_bot_reviews_repo_30d"@,
{
    match k {
        ViewKind::Weekly => "mv_bot_reviews_repo_7d",
        ViewKind::Monthly => "mv_bot_reviews_repo_30d",
    }
}

/// The effective limit: the given one, or 5 when absent.
pub open spec fn spec_effective_limit(limit: Option<i32>) -> int {
    match limit {
        Some(l) => l as int,
        None => 5,
    }
}

/// The effective look-back window: the given one, or 30 when absent.
pub open spec fn spec_effective_days_back(days_back: Option<i32>) -> int {
    match days_back {
        Some(d) => d as int,
        None => 30,
    }
}

/// The effective limit must sit in `1..=20`; anything else is rejected
/// with the exact message the API serves.
pub fn validate_limit(limit: Option<i32>) -> (r: Result<i32, String>)
    ensures
        r is Ok <==> 1 <= spec_effective_limit(limit) <= 20,
        r is Ok ==> r->Ok_0 == spec_effective_limit(limit),
        r is Err ==> r->Err_0@ == "Invalid limit. Must be between 1 and 20"@,
{
    let v: i32 = match limit {
        Some(l) => l,
        None => 5,
    };
    if 1 <= v && v <= 20 {
        Ok(v)
    } else {
        Err(String::from_str("Invalid limit. Must be between 1 and 20"))
    }
}

/// The effective look-back window must sit in `1..=365`; anything else is
/// rejected with the exact message the API serves.
pub fn validate_days_back(days_back: Option<i32>) -> (r: Result<i32, String>)
    ensures
        r is Ok <==> 1 <= spec_effective_days_back(days_back) <= 365,
        r is Ok ==> r->Ok_0 == spec_effective_days_back(days_back),
        r is Err ==> r->Err_0@ == "Invalid daysBack. Must be between 1 and 365"@,
{
    let v: i32 = match days_back {
        Some(d) => d,
        None => 30,
    };
    if 1 <= v && v <= 365 {
        Ok(v)
    } else {
        Err(String::from_str("Invalid daysBack. Must be between 1 and 365"))
    }
}

/// Validate both top-repositories parameters: the limit first, as the API
/// answers, then the look-back window.
pub fn validate_top_repos(params: &TopReposQueryParams) -> (r: Result<(i32, i32), String>)
    ensures
        r is Ok <==> (1 <= spec_effective_limit(params.limit) <= 20
            && 1 <= spec_effective_days_back(params.days_back) <= 365),
        r matches Ok(v) ==> v.0 == spec_effective_limit(params.limit)
            && v.1 == spec_effective_days_back(params.days_back),
        r is Err && !(1 <= spec_effective_limit(params.limit) <= 20)
            ==> r->Err_0@ == "Invalid limit. Must be between 1 and 20"@,
        r is Err && 1 <= spec_effective_limit(params.limit) <= 20
            ==> r->Err_0@ == "Invalid daysBack. Must be between 1 and 365"@,
{
    let limit = match validate_limit(params.limit) {
        Ok(v) => v,
        Err(m) => {
            return Err(m);
        },
    };
    let days_back = match validate_days_back(params.days_back) {
        Ok(v) => v,
        Err(m) => {
            return Err(m);
        },
    };
    Ok((limit, days_back))
}

} // verus!
