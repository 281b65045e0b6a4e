//! Batched repository metadata fetch, minus the transport: building one
//! aliased query per batch, demultiplexing a response keyed by positional
//! aliases back onto the batch's identities, classifying every identity as
//! resolved or failed, and reconciling both sets into persistable records.
//!
//! The caller performs the HTTP exchange and hands the response body back;
//! everything around that exchange is verified here.

use vstd::prelude::*;
use crate::alias::{spec_alias, alias_for, spec_chunks};

verus! {

/// Metadata of one successfully resolved repository.
pub struct GithubRepoGraphQLData {
    pub full_name: String,
    pub node_id: String,
    pub database_id: i64,
    pub star_count: i64,
    pub is_error: bool,
    pub updated_at: String,
}

/// The fields of one repository object of the response; any of them may be
/// missing.
pub struct AliasFields {
    pub star_count: Option<i64>,
    pub node_id: Option<String>,
    pub database_id: Option<i64>,
}

/// One aliased entry of the response: the alias and the repository object,
/// which is absent when the upstream could not resolve the repository.
pub struct AliasEntry {
    pub alias: String,
    pub repo: Option<AliasFields>,
}

/// What one batch's exchange came to: a whole-batch failure (transport or
/// status), or the decoded aliased entries.
pub enum BatchEvent {
    Failure,
    Data(Vec<AliasEntry>),
}

/// One persistable record: fresh metadata for a resolved identity, or an
/// error marker for a failed one.
pub struct RepositoryStarRecord {
    pub full_name: String,
    pub node_id: Option<String>,
    pub database_id: Option<i64>,
    pub star_count: Option<i64>,
    pub is_error: bool,
    pub updated_at: String,
}

/// Index of the first `/`, or -1 when there is none.
pub open spec fn spec_slash_pos(s: Seq<char>) -> int
    decreases s.len(),
{
    if s.len() == 0 {
        -1
    } else if s.first() == '/' {
        0
    } else {
        let r = spec_slash_pos(s.drop_first());
        if r < 0 { -1 } else { r + 1 }
    }
}

/// A well-formed identity holds an `owner/name` separator.
pub open spec fn spec_has_slash(s: Seq<char>) -> bool {
    spec_slash_pos(s) >= 0
}

proof fn lemma_slash_pos_bounds(s: Seq<char>)
    ensures
        -1 <= spec_slash_pos(s) < s.len(),
        spec_slash_pos(s) >= 0 ==> s[spec_slash_pos(s)] == '/',
    decreases s.len(),
{
    if s.len() > 0 && s.first() != '/' {
        lemma_slash_pos_bounds(s.drop_first());
    }
}

proof fn lemma_slash_pos_found(s: Seq<char>, i: int)
    requires
        0 <= i < s.len(),
        s[i] == '/',
        forall|q: int| 0 <= q < i ==> s[q] != '/',
    ensures
        spec_slash_pos(s) == i,
    decreases i,
{
    if i > 0 {
        assert forall|q: int| 0 <= q < i - 1 implies s.drop_first()[q] != '/' by {
            assert(s[q + 1] != '/');
        };
        lemma_slash_pos_found(s.drop_first(), i - 1);
    }
}

proof fn lemma_slash_pos_none(s: Seq<char>)
    requires
        forall|q: int| 0 <= q < s.len() ==> s[q] != '/',
    ensures
        spec_slash_pos(s) == -1,
    decreases s.len(),
{
    if s.len() > 0 {
        assert forall|q: int| 0 <= q < s.drop_first().len() implies s.drop_first()[q] != '/' by {
            assert(s[q + 1] != '/');
        };
        lemma_slash_pos_none(s.drop_first());
    }
}

/// Find the first `/` of a string.
pub fn slash_pos(s: &str) -> (r: Option<usize>)
    ensures
        match r {
            Some(p) => p == spec_slash_pos(s@),
            None => spec_slash_pos(s@) == -1,
        },
{
    let n = s.unicode_len();
    let mut i: usize = 0;
    while i < n
        invariant
            i <= n,
            n == s@.len(),
            forall|q: int| 0 <= q < i ==> s@[q] != '/',
        decreases n - i,
    {
        if s.get_char(i) == '/' {
            proof {
                lemma_slash_pos_found(s@, i as int);
            }
            return Some(i);
        }
        i = i + 1;
    }
    proof {
        lemma_slash_pos_none(s@);
    }
    None
}

/// The aliased sub-query of the identity at batch position `j`.
pub open spec fn spec_repo_fragment(j: int, id: Seq<char>) -> Seq<char> {
    let p = spec_slash_pos(id);
    spec_alias(j) + ": repository(owner:\""@ + id.take(p) + "\", name:\""@ + id.skip(p + 1)
        + "\") { stargazerCount id databaseId }\n"@
}

/// The concatenated sub-queries of the first `upto` identities; a
/// malformed identity (no separator) contributes nothing but keeps its
/// position, so aliases still name batch positions.
pub open spec fn spec_query_body(chunk: Seq<String>, upto: int) -> Seq<char>
    decreases upto,
{
    if upto <= 0 {
        Seq::<char>::empty()
    } else {
        spec_query_body(chunk, upto - 1) + if spec_has_slash(chunk[upto - 1]@) {
            spec_repo_fragment(upto - 1, chunk[upto - 1]@)
        } else {
            Seq::<char>::empty()
        }
    }
}

/// The whole composite query of one batch.
pub open spec fn spec_batch_query(chunk: Seq<String>) -> Seq<char> {
    "query { "@ + spec_query_body(chunk, chunk.len() as int) + " }"@
}

/// Build the composite query of one batch: one aliased sub-query per
/// well-formed identity, at that identity's batch position.
pub fn build_batch_query(chunk: &Vec<String>) -> (r: String)
    ensures
        r@ == spec_batch_query(chunk@),
{
    let n = chunk.len();
    let mut body = String::new();
    let mut j: usize = 0;
    while j < n
        invariant
            j <= n,
            n == chunk@.len(),
            body@ == spec_query_body(chunk@, j as int),
        decreases n - j,
    {
        let id = &chunk[j];
        let id_str = id.as_str();
        let id_len = id_str.unicode_len();
        match slash_pos(id_str) {
            Some(p) => {
                proof {
                    lemma_slash_pos_bounds(id_str@);
                }
                let owner = id_str.substring_char(0, p);
                let name = id_str.substring_char(p + 1, id_len);
                let a = alias_for(j);
                body.append(a.as_str());
                body.append(": repository(owner:\"");
                body.append(owner);
                body.append("\", name:\"");
                body.append(name);
                body.append("\") { stargazerCount id databaseId }\n");
                proof {
                    assert(owner@ =~= id_str@.take(p as int));
                    assert(name@ =~= id_str@.skip(p as int + 1));
                    assert(body@ =~= spec_query_body(chunk@, j as int)
                        + spec_repo_fragment(j as int, chunk@[j as int]@));
                }
            },
            None => {
                proof {
                    assert(body@ =~= spec_query_body(chunk@, j as int) + Seq::<char>::empty());
                }
            },
        }
        j = j + 1;
    }
    let mut q = String::from_str("query { ");
    q.append(body.as_str());
    q.append(" }");
    q
}

/// The first entry carrying this alias, if any.
pub open spec fn spec_find_alias(entries: Seq<AliasEntry>, a: Seq<char>) -> Option<AliasEntry>
    decreases entries.len(),
{
    if entries.len() == 0 {
        None
    } else if entries.first().alias@ == a {
        Some(entries.first())
    } else {
        spec_find_alias(entries.drop_first(), a)
    }
}

/// All three required fields came back.
pub open spec fn spec_complete(f: AliasFields) -> bool {
    f.star_count is Some && f.node_id is Some && f.database_id is Some
}

/// The record of a resolved identity.
pub open spec fn spec_record(full: String, f: AliasFields, now: String) -> GithubRepoGraphQLData {
    GithubRepoGraphQLData {
        full_name: full,
        node_id: f.node_id->0,
        database_id: f.database_id->0,
        star_count: f.star_count->0,
        is_error: false,
        updated_at: now,
    }
}

/// The metadata the identity at position `j` resolves to, or `None` when it
/// is malformed, its alias is missing, its repository object is absent, or
/// a required field is missing.
pub open spec fn spec_resolved_at(
    chunk: Seq<String>,
    entries: Seq<AliasEntry>,
    now: String,
    j: int,
) -> Option<GithubRepoGraphQLData> {
    if !spec_has_slash(chunk[j]@) {
        None
    } else {
        match spec_find_alias(entries, spec_alias(j)) {
            Some(e) => match e.repo {
                Some(f) => if spec_complete(f) {
                    Some(spec_record(chunk[j], f, now))
                } else {
                    None
                },
                None => None,
            },
            None => None,
        }
    }
}

/// A well-formed identity that does not resolve is failed; a malformed one
/// is neither resolved nor failed.
pub open spec fn spec_failed_at(chunk: Seq<String>, entries: Seq<AliasEntry>, j: int) -> bool {
    spec_has_slash(chunk[j]@) && match spec_find_alias(entries, spec_alias(j)) {
        Some(e) => match e.repo {
            Some(f) => !spec_complete(f),
            None => true,
        },
        None => true,
    }
}

/// Resolved records of the first `upto` batch positions, in position order.
pub open spec fn spec_chunk_resolved(
    chunk: Seq<String>,
    entries: Seq<AliasEntry>,
    now: String,
    upto: int,
) -> Seq<GithubRepoGraphQLData>
    decreases upto,
{
    if upto <= 0 {
        Seq::<GithubRepoGraphQLData>::empty()
    } else {
        spec_chunk_resolved(chunk, entries, now, upto - 1)
            + match spec_resolved_at(chunk, entries, now, upto - 1) {
            Some(d) => seq![d],
            None => Seq::<GithubRepoGraphQLData>::empty(),
        }
    }
}

/// Failed identities of the first `upto` batch positions, in position order.
pub open spec fn spec_chunk_failed(
    chunk: Seq<String>,
    entries: Seq<AliasEntry>,
    upto: int,
) -> Seq<String>
    decreases upto,
{
    if upto <= 0 {
        Seq::<String>::empty()
    } else {
        spec_chunk_failed(chunk, entries, upto - 1) + if spec_failed_at(chunk, entries, upto - 1) {
            seq![chunk[upto - 1]]
        } else {
            Seq::<String>::empty()
        }
    }
}

fn find_alias_index(entries: &Vec<AliasEntry>, a: &String) -> (r: Option<usize>)
    ensures
        match r {
            Some(q) => q < entries@.len()
                && spec_find_alias(entries@, a@) == Some(entries@[q as int]),
            None => spec_find_alias(entries@, a@) is None,
        },
{
    let n = entries.len();
    let mut q: usize = 0;
    proof {
        assert(entries@.skip(0) =~= entries@);
    }
    while q < n
        invariant
            q <= n,
            n == entries@.len(),
            spec_find_alias(entries@, a@) == spec_find_alias(entries@.skip(q as int), a@),
        decreases n - q,
    {
        proof {
            assert(entries@.skip(q as int).first() == entries@[q as int]);
            assert(entries@.skip(q as int).drop_first() =~= entries@.skip(q as int + 1));
        }
        if entries[q].alias == *a {
            return Some(q);
        }
        q = q + 1;
    }
    proof {
        assert(entries@.skip(n as int) =~= Seq::<AliasEntry>::empty());
    }
    None
}

/// Classify every identity of one batch against the batch's event. On a
/// whole-batch failure every identity (malformed ones included) is failed;
/// on data, each well-formed identity is resolved or failed by its aliased
/// entry, and a malformed identity is silently skipped.
pub fn classify_chunk(chunk: &Vec<String>, event: &BatchEvent, now: &String) -> (r: (
    Vec<GithubRepoGraphQLData>,
    Vec<String>,
))
    ensures
        (*event) matches BatchEvent::Failure ==> r.0@.len() == 0 && r.1@ == chunk@,
        (*event) matches BatchEvent::Data(entries) ==> {
            &&& r.0@ == spec_chunk_resolved(chunk@, entries@, *now, chunk@.len() as int)
            &&& r.1@ == spec_chunk_failed(chunk@, entries@, chunk@.len() as int)
        },
{
    let n = chunk.len();
    let mut resolved: Vec<GithubRepoGraphQLData> = Vec::new();
    let mut failed: Vec<String> = Vec::new();
    match event {
        BatchEvent::Failure => {
            let mut j: usize = 0;
            while j < n
                invariant
                    j <= n,
                    n == chunk@.len(),
                    failed@ == chunk@.take(j as int),
                decreases n - j,
            {
                failed.push(chunk[j].clone());
                proof {
                    assert(failed@ =~= chunk@.take(j as int + 1));
                }
                j = j + 1;
            }
            proof {
                assert(chunk@.take(n as int) =~= chunk@);
            }
            (resolved, failed)
        },
        BatchEvent::Data(entries) => {
            let mut j: usize = 0;
            while j < n
                invariant
                    j <= n,
                    n == chunk@.len(),
                    resolved@ == spec_chunk_resolved(chunk@, entries@, *now, j as int),
                    failed@ == spec_chunk_failed(chunk@, entries@, j as int),
                decreases n - j,
            {
                let id = &chunk[j];
                match slash_pos(id.as_str()) {
                    None => {
                        proof {
                            assert(resolved@
                                =~= spec_chunk_resolved(chunk@, entries@, *now, j as int + 1));
                            assert(failed@ =~= spec_chunk_failed(chunk@, entries@, j as int + 1));
                        }
                    },
                    Some(_) => {
                        let a = alias_for(j);
                        let mut ok = false;
                        match find_alias_index(entries, &a) {
                            Some(q) => {
                                let e = &entries[q];
                                match &e.repo {
                                    Some(f) => {
                                        match (&f.star_count, &f.node_id, &f.database_id) {
                                            (Some(st), Some(nid), Some(dbid)) => {
                                                resolved.push(GithubRepoGraphQLData {
                                                    full_name: id.clone(),
                                                    node_id: nid.clone(),
                                                    database_id: *dbid,
                                                    star_count: *st,
                                                    is_error: false,
                                                    updated_at: now.clone(),
                                                });
                                                ok = true;
                                            },
                                            _ => {},
                                        }
                                    },
                                    None => {},
                                }
                            },
                            None => {},
                        }
                        if !ok {
                            failed.push(id.clone());
                        }
                        proof {
                            if ok {
                                assert(resolved@
                                    =~= spec_chunk_resolved(chunk@, entries@, *now, j as int)
                                    + seq![spec_resolved_at(chunk@, entries@, *now, j as int)->0]);
                                assert(failed@
                                    =~= spec_chunk_failed(chunk@, entries@, j as int + 1));
                            } else {
                                assert(resolved@
                                    =~= spec_chunk_resolved(chunk@, entries@, *now, j as int + 1));
                                assert(failed@
                                    =~= spec_chunk_failed(chunk@, entries@, j as int)
                                    + seq![chunk@[j as int]]);
                            }
                        }
                    },
                }
                j = j + 1;
            }
            (resolved, failed)
        },
    }
}

/// A well-formed identity is classified exactly once: per batch position,
/// resolved and failed are mutually exclusive, and together they cover
/// every position holding a separator.
proof fn lemma_chunk_accounting_upto(
    chunk: Seq<String>,
    entries: Seq<AliasEntry>,
    now: String,
    upto: int,
)
    requires
        0 <= upto <= chunk.len(),
        forall|j: int| 0 <= j < upto ==> spec_has_slash((#[trigger] chunk[j])@),
    ensures
        spec_chunk_resolved(chunk, entries, now, upto).len()
            + spec_chunk_failed(chunk, entries, upto).len() == upto,
    decreases upto,
{
    if upto > 0 {
        lemma_chunk_accounting_upto(chunk, entries, now, upto - 1);
    }
}

/// Accounting of one data batch: with every identity well-formed, each
/// identity lands in exactly one of the two outcome sets.
pub proof fn lemma_chunk_accounting(chunk: Seq<String>, entries: Seq<AliasEntry>, now: String)
    requires
        forall|j: int| 0 <= j < chunk.len() ==> spec_has_slash((#[trigger] chunk[j])@),
    ensures
        spec_chunk_resolved(chunk, entries, now, chunk.len() as int).len()
            + spec_chunk_failed(chunk, entries, chunk.len() as int).len() == chunk.len(),
{
    lemma_chunk_accounting_upto(chunk, entries, now, chunk.len() as int);
}

/// What one batch's event resolves.
pub open spec fn spec_event_resolved(
    chunk: Seq<String>,
    e: BatchEvent,
    now: String,
) -> Seq<GithubRepoGraphQLData> {
    match e {
        BatchEvent::Failure => Seq::<GithubRepoGraphQLData>::empty(),
        BatchEvent::Data(v) => spec_chunk_resolved(chunk, v@, now, chunk.len() as int),
    }
}

/// What one batch's event fails.
pub open spec fn spec_event_failed(chunk: Seq<String>, e: BatchEvent) -> Seq<String> {
    match e {
        BatchEvent::Failure => chunk,
        BatchEvent::Data(v) => spec_chunk_failed(chunk, v@, chunk.len() as int),
    }
}

/// Identities classified across all batches, resolved and failed together.
pub open spec fn spec_total_classified(
    chunks: Seq<Seq<String>>,
    events: Seq<BatchEvent>,
    now: String,
) -> int
    decreases chunks.len(),
{
    if chunks.len() == 0 {
        0
    } else {
        spec_event_resolved(chunks.first(), events.first(), now).len()
            + spec_event_failed(chunks.first(), events.first()).len()
            + spec_total_classified(chunks.drop_first(), events.drop_first(), now)
    }
}

/// Accounting of a whole fetch: when every identity is well-formed, the
/// batches classify each of the `K` identities exactly once, whatever each
/// batch's event was.
pub proof fn lemma_fetch_accounting(
    ids: Seq<String>,
    b: int,
    events: Seq<BatchEvent>,
    now: String,
)
    requires
        b >= 1,
        events.len() == spec_chunks(ids, b).len(),
        forall|i: int| 0 <= i < ids.len() ==> spec_has_slash((#[trigger] ids[i])@),
    ensures
        spec_total_classified(spec_chunks(ids, b), events, now) == ids.len(),
    decreases ids.len(),
{
    let chunks = spec_chunks(ids, b);
    if ids.len() == 0 {
    } else if ids.len() <= b {
        assert(chunks == seq![ids]);
        assert(chunks.len() == 1);
        assert(chunks.first() == ids);
        assert(chunks.drop_first() =~= Seq::<Seq<String>>::empty());
        assert(spec_total_classified(
            Seq::<Seq<String>>::empty(), events.drop_first(), now) == 0);
        match events.first() {
            BatchEvent::Failure => {},
            BatchEvent::Data(v) => {
                lemma_chunk_accounting(ids, v@, now);
            },
        }
    } else {
        let head = ids.take(b);
        let tail = ids.skip(b);
        assert(chunks == seq![head] + spec_chunks(tail, b));
        assert(chunks.first() == head);
        assert(chunks.drop_first() =~= spec_chunks(tail, b));
        assert forall|i: int| 0 <= i < tail.len() implies spec_has_slash((#[trigger] tail[i])@) by {
            assert(tail[i] == ids[i + b]);
        };
        lemma_fetch_accounting(tail, b, events.drop_first(), now);
        match events.first() {
            BatchEvent::Failure => {},
            BatchEvent::Data(v) => {
                assert forall|j: int| 0 <= j < head.len()
                    implies spec_has_slash((#[trigger] head[j])@) by {
                    assert(head[j] == ids[j]);
                };
                lemma_chunk_accounting(head, v@, now);
            },
        }
    }
}

/// The star count the identity at position `j` comes back with, when its
/// entry holds one; the simpler fetch path reads nothing else.
pub open spec fn spec_star_at(
    chunk: Seq<String>,
    entries: Seq<AliasEntry>,
    j: int,
) -> Option<(String, i64)> {
    if !spec_has_slash(chunk[j]@) {
        None
    } else {
        match spec_find_alias(entries, spec_alias(j)) {
            Some(e) => match e.repo {
                Some(f) => match f.star_count {
                    Some(st) => Some((chunk[j], st)),
                    None => None,
                },
                None => None,
            },
            None => None,
        }
    }
}

/// The `(identity, stars)` pairs of the first `upto` positions, in
/// position order.
pub open spec fn spec_chunk_stars(
    chunk: Seq<String>,
    entries: Seq<AliasEntry>,
    upto: int,
) -> Seq<(String, i64)>
    decreases upto,
{
    if upto <= 0 {
        Seq::<(String, i64)>::empty()
    } else {
        spec_chunk_stars(chunk, entries, upto - 1) + match spec_star_at(chunk, entries, upto - 1) {
            Some(p) => seq![p],
            None => Seq::<(String, i64)>::empty(),
        }
    }
}

/// Recover each identity's star count from one batch's event; a failed
/// batch, a missing alias, an absent repository object or a missing count
/// all leave that identity out.
pub fn chunk_star_counts(chunk: &Vec<String>, event: &BatchEvent) -> (r: Vec<(String, i64)>)
    ensures
        (*event) matches BatchEvent::Failure ==> r@.len() == 0,
        (*event) matches BatchEvent::Data(entries)
            ==> r@ == spec_chunk_stars(chunk@, entries@, chunk@.len() as int),
{
    let n = chunk.len();
    let mut out: Vec<(String, i64)> = Vec::new();
    match event {
        BatchEvent::Failure => out,
        BatchEvent::Data(entries) => {
            let mut j: usize = 0;
            while j < n
                invariant
                    j <= n,
                    n == chunk@.len(),
                    out@ == spec_chunk_stars(chunk@, entries@, j as int),
                decreases n - j,
            {
                let id = &chunk[j];
                match slash_pos(id.as_str()) {
                    None => {
                        proof {
                            assert(out@ =~= spec_chunk_stars(chunk@, entries@, j as int + 1));
                        }
                    },
                    Some(_) => {
                        let a = alias_for(j);
                        let mut pushed = false;
                        match find_alias_index(entries, &a) {
                            Some(q) => {
                                match &entries[q].repo {
                                    Some(f) => {
                                        match &f.star_count {
                                            Some(st) => {
                                                out.push((id.clone(), *st));
                                                pushed = true;
                                            },
                                            None => {},
                                        }
                                    },
                                    None => {},
                                }
                            },
                            None => {},
                        }
                        proof {
                            if pushed {
                                assert(out@ =~= spec_chunk_stars(chunk@, entries@, j as int)
                                    + seq![spec_star_at(chunk@, entries@, j as int)->0]);
                            } else {
                                assert(out@ =~= spec_chunk_stars(chunk@, entries@, j as int + 1));
                            }
                        }
                    },
                }
                j = j + 1;
            }
            out
        },
    }
}

/// The aliased entries that the response body decodes to: absent when the
/// body is not a JSON object with a `data` object.
pub uninterp spec fn spec_alias_entries_of(body: Seq<char>) -> Option<Seq<AliasEntry>>;

/// Relies on serde_json::from_str and serde_json::Value: parsing is a
/// function of the body text alone, and serde_json's default map keeps its
/// entries in a deterministic (key-sorted) order, so equal bodies decode to
/// equal entry sequences.
#[verifier::external_body]
fn parse_graphql_entries(body: &str) -> (r: Option<Vec<AliasEntry>>)
    ensures
        match r {
            Some(es) => spec_alias_entries_of(body@) == Some(es@),
            None => spec_alias_entries_of(body@) is None,
        },
{
    let v: serde_json::Value = serde_json::from_str(body).ok()?;
    let obj = v.get("data")?.as_object()?;
    Some(obj.iter().map(|(k, val)| AliasEntry {
        alias: k.clone(),
        repo: val.as_object().map(|f| AliasFields {
            star_count: f.get("stargazerCount").and_then(|x| x.as_i64()),
            node_id: f.get("id").and_then(|x| x.as_str()).map(|s| s.to_string()),
            database_id: f.get("databaseId").and_then(|x| x.as_i64()),
        }),
    }).collect())
}

/// Classify one batch straight from a successful response body. A body
/// without a decodable `data` object fails the whole batch, as a transport
/// failure would.
pub fn classify_response(chunk: &Vec<String>, body: &str, now: &String) -> (r: (
    Vec<GithubRepoGraphQLData>,
    Vec<String>,
))
    ensures
        match spec_alias_entries_of(body@) {
            Some(es) => {
                &&& r.0@ == spec_chunk_resolved(chunk@, es, *now, chunk@.len() as int)
                &&& r.1@ == spec_chunk_failed(chunk@, es, chunk@.len() as int)
            },
            None => r.0@.len() == 0 && r.1@ == chunk@,
        },
{
    let event = match parse_graphql_entries(body) {
        Some(es) => BatchEvent::Data(es),
        None => BatchEvent::Failure,
    };
    classify_chunk(chunk, &event, now)
}

/// Recover star counts for one batch straight from a successful response
/// body; a body without a decodable `data` object yields none, as a
/// transport failure would.
pub fn star_counts_from_response(chunk: &Vec<String>, body: &str) -> (r: Vec<(String, i64)>)
    ensures
        match spec_alias_entries_of(body@) {
            Some(es) => r@ == spec_chunk_stars(chunk@, es, chunk@.len() as int),
            None => r@.len() == 0,
        },
{
    let event = match parse_graphql_entries(body) {
        Some(es) => BatchEvent::Data(es),
        None => BatchEvent::Failure,
    };
    chunk_star_counts(chunk, &event)
}

/// Merge both outcome sets into persistable records: fresh metadata with
/// the error flag cleared for every resolved identity, then an error marker
/// (no metadata trusted) for every failed identity, all stamped `now`.
/// Record `i` keeps the identity of input `i`, so distinct inputs give
/// distinct records.
pub fn reconcile(
    resolved: &Vec<GithubRepoGraphQLData>,
    failed: &Vec<String>,
    now: &String,
) -> (r: Vec<RepositoryStarRecord>)
    ensures
        r@.len() == resolved@.len() + failed@.len(),
        forall|i: int| 0 <= i < resolved@.len() ==> #[trigger] r@[i] == (RepositoryStarRecord {
            full_name: resolved@[i].full_name,
            node_id: Some(resolved@[i].node_id),
            database_id: Some(resolved@[i].database_id),
            star_count: Some(resolved@[i].star_count),
            is_error: false,
            updated_at: *now,
        }),
        forall|i: int| 0 <= i < failed@.len()
            ==> #[trigger] r@[resolved@.len() + i] == (RepositoryStarRecord {
                full_name: failed@[i],
                node_id: None,
                database_id: None,
                star_count: None,
                is_error: true,
                updated_at: *now,
            }),
{
    let mut r: Vec<RepositoryStarRecord> = Vec::new();
    let mut i: usize = 0;
    let nr = resolved.len();
    while i < nr
        invariant
            i <= nr,
            nr == resolved@.len(),
            r@.len() == i,
            forall|q: int| 0 <= q < i ==> #[trigger] r@[q] == (RepositoryStarRecord {
                full_name: resolved@[q].full_name,
                node_id: Some(resolved@[q].node_id),
                database_id: Some(resolved@[q].database_id),
                star_count: Some(resolved@[q].star_count),
                is_error: false,
                updated_at: *now,
            }),
        decreases nr - i,
    {
        let d = &resolved[i];
        r.push(RepositoryStarRecord {
            full_name: d.full_name.clone(),
            node_id: Some(d.node_id.clone()),
            database_id: Some(d.database_id),
            star_count: Some(d.star_count),
            is_error: false,
            updated_at: now.clone(),
        });
        i = i + 1;
    }
    let nf = failed.len();
    let mut k: usize = 0;
    while k < nf
        invariant
            k <= nf,
            nf == failed@.len(),
            nr == resolved@.len(),
            r@.len() == nr + k,
            forall|q: int| 0 <= q < nr ==> #[trigger] r@[q] == (RepositoryStarRecord {
                full_name: resolved@[q].full_name,
                node_id: Some(resolved@[q].node_id),
                database_id: Some(resolved@[q].database_id),
                star_count: Some(resolved@[q].star_count),
                is_error: false,
                updated_at: *now,
            }),
            forall|q: int| 0 <= q < k ==> #[trigger] r@[nr + q] == (RepositoryStarRecord {
                full_name: failed@[q],
                node_id: None,
                database_id: None,
                star_count: None,
                is_error: true,
                updated_at: *now,
            }),
        decreases nf - k,
    {
        r.push(RepositoryStarRecord {
            full_name: failed[k].clone(),
            node_id: None,
            database_id: None,
            star_count: None,
            is_error: true,
            updated_at: now.clone(),
        });
        k = k + 1;
    }
    r
}

} // verus!
