//! Top-N ranker: per group, the qualifying rows (those that carry a score)
//! ordered by score descending with a stable tie-break (input order), cut
//! to the first `n`. Groups appear in first-seen order of their key among
//! qualifying rows; a group with no qualifying row is absent.

use vstd::prelude::*;

verus! {

/// One candidate row: group key, repository identity and name, and an
/// optional score (an absent score disqualifies the row).
pub struct RepoRow {
    pub bot_id: i64,
    pub repo_db_id: i64,
    pub repo_name: String,
    pub star_count: Option<i64>,
}

/// One emitted ranking entry.
pub struct TopRepo {
    pub repo_db_id: i64,
    pub repo_name: String,
    pub star_count: i64,
}

/// One ranked group: its key and its ordered entries.
pub struct RankedGroup {
    pub bot_id: i64,
    pub repos: Vec<TopRepo>,
}

pub open spec fn spec_qualifies(r: RepoRow, g: i64) -> bool {
    r.bot_id == g && r.star_count is Some
}

pub open spec fn spec_top_of(r: RepoRow) -> TopRepo {
    TopRepo { repo_db_id: r.repo_db_id, repo_name: r.repo_name, star_count: r.star_count->0 }
}

/// The group's qualifying rows, mapped to entries, in input order.
pub open spec fn spec_group_tops(rows: Seq<RepoRow>, g: i64) -> Seq<TopRepo>
    decreases rows.len(),
{
    if rows.len() == 0 {
        Seq::<TopRepo>::empty()
    } else {
        let p = spec_group_tops(rows.drop_last(), g);
        if spec_qualifies(rows.last(), g) {
            p.push(spec_top_of(rows.last()))
        } else {
            p
        }
    }
}

/// The distinct group keys among qualifying rows, in first-seen order.
pub open spec fn spec_group_keys(rows: Seq<RepoRow>) -> Seq<i64>
    decreases rows.len(),
{
    if rows.len() == 0 {
        Seq::<i64>::empty()
    } else {
        let p = spec_group_keys(rows.drop_last());
        if rows.last().star_count is Some && !p.contains(rows.last().bot_id) {
            p.push(rows.last().bot_id)
        } else {
            p
        }
    }
}

/// Insert `x` behind every entry whose score is at least `x`'s: descending
/// order with ties resolved toward earlier input.
pub open spec fn spec_insert_desc(s: Seq<TopRepo>, x: TopRepo) -> Seq<TopRepo>
    decreases s.len(),
{
    if s.len() == 0 {
        seq![x]
    } else if s.first().star_count < x.star_count {
        seq![x] + s
    } else {
        seq![s.first()] + spec_insert_desc(s.drop_first(), x)
    }
}

/// Stable sort by score descending: insert each element in input order.
pub open spec fn spec_sort_desc(s: Seq<TopRepo>) -> Seq<TopRepo>
    decreases s.len(),
{
    if s.len() == 0 {
        Seq::<TopRepo>::empty()
    } else {
        spec_insert_desc(spec_sort_desc(s.drop_last()), s.last())
    }
}

/// What one group's emitted entries are: sorted qualifying entries, first
/// `n` kept.
pub open spec fn spec_ranked_entries(rows: Seq<RepoRow>, g: i64, n: int) -> Seq<TopRepo> {
    let sorted = spec_sort_desc(spec_group_tops(rows, g));
    sorted.take(if n < sorted.len() { n } else { sorted.len() as int })
}

pub open spec fn spec_sorted_desc(s: Seq<TopRepo>) -> bool {
    forall|i: int, j: int| 0 <= i < j < s.len() ==> s[i].star_count >= s[j].star_count
}

/// Is `e` the entry of some qualifying row of group `g`?
pub open spec fn spec_entry_from_row(rows: Seq<RepoRow>, g: i64, e: TopRepo) -> bool {
    exists|q: int| 0 <= q < rows.len() && spec_qualifies(#[trigger] rows[q], g)
        && spec_top_of(rows[q]) == e
}

proof fn lemma_insert_desc_len(s: Seq<TopRepo>, x: TopRepo)
    ensures
        spec_insert_desc(s, x).len() == s.len() + 1,
    decreases s.len(),
{
    if s.len() > 0 && !(s.first().star_count < x.star_count) {
        lemma_insert_desc_len(s.drop_first(), x);
    }
}

proof fn lemma_insert_desc_sorted(s: Seq<TopRepo>, x: TopRepo)
    requires
        spec_sorted_desc(s),
    ensures
        spec_sorted_desc(spec_insert_desc(s, x)),
    decreases s.len(),
{
    if s.len() == 0 {
    } else if s.first().star_count < x.star_count {
        assert forall|i: int, j: int| 0 <= i < j < (seq![x] + s).len()
            implies (seq![x] + s)[i].star_count >= (seq![x] + s)[j].star_count by {
            if i > 0 {
                assert(s[i - 1].star_count >= s[j - 1].star_count);
            } else {
                if j == 1 {
                    assert((seq![x] + s)[j] == s.first());
                } else {
                    assert(s[0].star_count >= s[j - 1].star_count);
                }
            }
        };
    } else {
        let sp = s.drop_first();
        assert(spec_sorted_desc(sp)) by {
            assert forall|i: int, j: int| 0 <= i < j < sp.len()
                implies sp[i].star_count >= sp[j].star_count by {
                assert(s[i + 1].star_count >= s[j + 1].star_count);
            };
        };
        lemma_insert_desc_sorted(sp, x);
        lemma_insert_desc_len(sp, x);
        let t = seq![s.first()] + spec_insert_desc(sp, x);
        assert forall|i: int, j: int| 0 <= i < j < t.len()
            implies t[i].star_count >= t[j].star_count by {
            if i > 0 {
                assert(spec_insert_desc(sp, x)[i - 1].star_count
                    >= spec_insert_desc(sp, x)[j - 1].star_count);
            } else {
                // head dominates: it dominates x and every element of sp
                lemma_insert_desc_member(sp, x, j - 1);
            }
        };
    }
}

/// Every position of an insertion result holds either `x` or an element of
/// the sequence it was inserted into.
proof fn lemma_insert_desc_member(s: Seq<TopRepo>, x: TopRepo, i: int)
    requires
        0 <= i < spec_insert_desc(s, x).len(),
    ensures
        spec_insert_desc(s, x)[i] == x || s.contains(spec_insert_desc(s, x)[i]),
    decreases s.len(),
{
    lemma_insert_desc_len(s, x);
    if s.len() == 0 {
    } else if s.first().star_count < x.star_count {
        if i > 0 {
            assert(s.contains(s[i - 1]));
        }
    } else {
        if i == 0 {
            assert(s.contains(s.first()));
        } else {
            lemma_insert_desc_member(s.drop_first(), x, i - 1);
            let e = spec_insert_desc(s.drop_first(), x)[i - 1];
            if s.drop_first().contains(e) {
                let q = choose|q: int| 0 <= q < s.drop_first().len() && s.drop_first()[q] == e;
                assert(s[q + 1] == e);
            }
        }
    }
}

proof fn lemma_sort_desc_len(s: Seq<TopRepo>)
    ensures
        spec_sort_desc(s).len() == s.len(),
    decreases s.len(),
{
    if s.len() > 0 {
        lemma_sort_desc_len(s.drop_last());
        lemma_insert_desc_len(spec_sort_desc(s.drop_last()), s.last());
    }
}

proof fn lemma_sort_desc_sorted(s: Seq<TopRepo>)
    ensures
        spec_sorted_desc(spec_sort_desc(s)),
    decreases s.len(),
{
    if s.len() > 0 {
        lemma_sort_desc_sorted(s.drop_last());
        lemma_insert_desc_sorted(spec_sort_desc(s.drop_last()), s.last());
    }
}

/// Every element of the sorted sequence is an element of the input.
proof fn lemma_sort_desc_member(s: Seq<TopRepo>, i: int)
    requires
        0 <= i < spec_sort_desc(s).len(),
    ensures
        s.contains(spec_sort_desc(s)[i]),
    decreases s.len(),
{
    if s.len() > 0 {
        lemma_insert_desc_member(spec_sort_desc(s.drop_last()), s.last(), i);
        let e = spec_sort_desc(s)[i];
        if e == s.last() {
            assert(s[s.len() - 1] == e);
        } else {
            let q = choose|q: int|
                0 <= q < spec_sort_desc(s.drop_last()).len() && spec_sort_desc(s.drop_last())[q] == e;
            lemma_sort_desc_member(s.drop_last(), q);
            let w = choose|w: int| 0 <= w < s.drop_last().len() && s.drop_last()[w] == e;
            assert(s[w] == e);
        }
    }
}

/// Every qualifying entry stems from a row of the group that carries a
/// score.
proof fn lemma_group_tops_member(rows: Seq<RepoRow>, g: i64, i: int)
    requires
        0 <= i < spec_group_tops(rows, g).len(),
    ensures
        exists|q: int| 0 <= q < rows.len() && spec_qualifies(#[trigger] rows[q], g)
            && spec_top_of(rows[q]) == spec_group_tops(rows, g)[i],
    decreases rows.len(),
{
    if rows.len() > 0 {
        let p = spec_group_tops(rows.drop_last(), g);
        if spec_qualifies(rows.last(), g) && i == p.len() {
            assert(spec_qualifies(rows[rows.len() - 1], g));
            assert(spec_top_of(rows[rows.len() - 1]) == spec_group_tops(rows, g)[i]);
        } else {
            lemma_group_tops_member(rows.drop_last(), g, i);
            let q = choose|q: int| 0 <= q < rows.drop_last().len()
                && spec_qualifies(#[trigger] rows.drop_last()[q], g)
                && spec_top_of(rows.drop_last()[q]) == p[i];
            assert(spec_qualifies(rows[q], g));
            assert(spec_top_of(rows[q]) == spec_group_tops(rows, g)[i]);
        }
    }
}

/// Soundness of one ranked group: at most `n` entries, scores
/// non-increasing, and every entry stems from a qualifying input row
/// (so no entry ever stands for an absent score).
pub proof fn lemma_ranked_entries_sound(rows: Seq<RepoRow>, g: i64, n: int)
    requires
        n >= 0,
    ensures
        spec_ranked_entries(rows, g, n).len() <= n,
        spec_sorted_desc(spec_ranked_entries(rows, g, n)),
        forall|i: int| 0 <= i < spec_ranked_entries(rows, g, n).len()
            ==> spec_entry_from_row(rows, g, #[trigger] spec_ranked_entries(rows, g, n)[i]),
{
    let tops = spec_group_tops(rows, g);
    let sorted = spec_sort_desc(tops);
    lemma_sort_desc_len(tops);
    lemma_sort_desc_sorted(tops);
    assert forall|i: int| 0 <= i < spec_ranked_entries(rows, g, n).len()
        implies spec_entry_from_row(rows, g, #[trigger] spec_ranked_entries(rows, g, n)[i]) by {
        assert(spec_ranked_entries(rows, g, n)[i] == sorted[i]);
        lemma_sort_desc_member(tops, i);
        let w = choose|w: int| 0 <= w < tops.len() && tops[w] == sorted[i];
        lemma_group_tops_member(rows, g, w);
        let q0 = choose|q: int| 0 <= q < rows.len() && spec_qualifies(#[trigger] rows[q], g)
            && spec_top_of(rows[q]) == spec_group_tops(rows, g)[w];
        assert(0 <= q0 < rows.len() && spec_qualifies(rows[q0], g)
            && spec_top_of(rows[q0]) == spec_ranked_entries(rows, g, n)[i]);
        assert(spec_entry_from_row(rows, g, spec_ranked_entries(rows, g, n)[i]));
    };
}

/// `Seq::insert` at the first position whose score is below `x`'s is
/// exactly the stable descending insertion.
proof fn lemma_insert_desc_at(s: Seq<TopRepo>, x: TopRepo, p: int)
    requires
        0 <= p <= s.len(),
        forall|q: int| 0 <= q < p ==> s[q].star_count >= x.star_count,
        p < s.len() ==> s[p].star_count < x.star_count,
    ensures
        s.insert(p, x) == spec_insert_desc(s, x),
    decreases s.len(),
{
    if s.len() == 0 {
        assert(s.insert(0, x) =~= seq![x]);
    } else if p == 0 {
        assert(s.first().star_count < x.star_count);
        assert(s.insert(0, x) =~= seq![x] + s);
    } else {
        assert(s[0].star_count >= x.star_count);
        let sp = s.drop_first();
        assert forall|q: int| 0 <= q < p - 1 implies sp[q].star_count >= x.star_count by {
            assert(s[q + 1].star_count >= x.star_count);
        };
        if p - 1 < sp.len() {
            assert(sp[p - 1].star_count < x.star_count);
        }
        lemma_insert_desc_at(sp, x, p - 1);
        assert(s.insert(p, x) =~= seq![s.first()] + sp.insert(p - 1, x));
    }
}

/// Rank the rows: one output group per distinct key among qualifying rows
/// (first-seen order); each group's entries are its qualifying rows sorted
/// by score descending (ties keep input order), cut to the first `n`.
pub fn rank_top_repos(rows: &Vec<RepoRow>, n: usize) -> (r: Vec<RankedGroup>)
    ensures
        r@.map_values(|g: RankedGroup| g.bot_id) == spec_group_keys(rows@),
        forall|gi: int| 0 <= gi < r@.len()
            ==> #[trigger] r@[gi].repos@ == spec_ranked_entries(rows@, r@[gi].bot_id, n as int),
{
    let m = rows.len();

    // Distinct group keys among qualifying rows, first-seen order.
    let mut keys: Vec<i64> = Vec::new();
    let mut ri: usize = 0;
    while ri < m
        invariant
            ri <= m,
            m == rows@.len(),
            keys@ == spec_group_keys(rows@.take(ri as int)),
        decreases m - ri,
    {
        proof {
            assert(rows@.take(ri as int + 1).drop_last() =~= rows@.take(ri as int));
            assert(rows@.take(ri as int + 1).last() == rows@[ri as int]);
        }
        let has_score = rows[ri].star_count.is_some();
        if has_score {
            let k = rows[ri].bot_id;
            let mut found = false;
            let mut q: usize = 0;
            while q < keys.len()
                invariant
                    q <= keys@.len(),
                    found == keys@.take(q as int).contains(k),
                decreases keys@.len() - q,
            {
                proof {
                    assert(keys@.take(q as int + 1).drop_last() =~= keys@.take(q as int));
                    assert(keys@.take(q as int + 1).last() == keys@[q as int]);
                    if keys@.take(q as int + 1).contains(k) && !keys@.take(q as int).contains(k) {
                        assert(keys@.take(q as int + 1)[keys@.take(q as int + 1).len() - 1]
                            == keys@[q as int]);
                    }
                }
                if keys[q] == k {
                    found = true;
                }
                q = q + 1;
            }
            proof {
                assert(keys@.take(keys@.len() as int) =~= keys@);
            }
            if !found {
                keys.push(k);
            }
        }
        ri = ri + 1;
    }
    proof {
        assert(rows@.take(m as int) =~= rows@);
    }

    // One sorted, truncated entry list per key.
    let mut out: Vec<RankedGroup> = Vec::new();
    let mut ki: usize = 0;
    while ki < keys.len()
        invariant
            ki <= keys@.len(),
            m == rows@.len(),
            keys@ == spec_group_keys(rows@),
            out@.len() == ki,
            forall|j: int| 0 <= j < ki ==> (#[trigger] out@[j]).bot_id == keys@[j],
            forall|j: int| 0 <= j < ki ==> (#[trigger] out@[j]).repos@
                == spec_ranked_entries(rows@, keys@[j], n as int),
        decreases keys@.len() - ki,
    {
        let g = keys[ki];
        let mut sorted: Vec<TopRepo> = Vec::new();
        proof {
            assert(rows@.take(0) =~= Seq::<RepoRow>::empty());
        }
        let mut rv: usize = 0;
        while rv < m
            invariant
                rv <= m,
                m == rows@.len(),
                sorted@ == spec_sort_desc(spec_group_tops(rows@.take(rv as int), g)),
            decreases m - rv,
        {
            proof {
                assert(rows@.take(rv as int + 1).drop_last() =~= rows@.take(rv as int));
                assert(rows@.take(rv as int + 1).last() == rows@[rv as int]);
            }
            let qualifies = rows[rv].bot_id == g && rows[rv].star_count.is_some();
            if qualifies {
                let x = TopRepo {
                    repo_db_id: rows[rv].repo_db_id,
                    repo_name: rows[rv].repo_name.clone(),
                    star_count: match rows[rv].star_count {
                        Some(s) => s,
                        None => 0,
                    },
                };
                proof {
                    assert(x == spec_top_of(rows@[rv as int]));
                    assert(spec_group_tops(rows@.take(rv as int + 1), g)
                        == spec_group_tops(rows@.take(rv as int), g).push(x));
                    assert(spec_group_tops(rows@.take(rv as int + 1), g).drop_last()
                        =~= spec_group_tops(rows@.take(rv as int), g));
                }
                let mut p: usize = 0;
                while p < sorted.len() && sorted[p].star_count >= x.star_count
                    invariant
                        p <= sorted@.len(),
                        forall|q: int| 0 <= q < p
                            ==> (#[trigger] sorted@[q]).star_count >= x.star_count,
                    decreases sorted@.len() - p,
                {
                    p = p + 1;
                }
                proof {
                    lemma_insert_desc_at(sorted@, x, p as int);
                }
                sorted.insert(p, x);
            }
            rv = rv + 1;
        }
        proof {
            assert(rows@.take(m as int) =~= rows@);
        }
        if sorted.len() > n {
            sorted.truncate(n);
            proof {
                assert(sorted@ =~= spec_ranked_entries(rows@, g, n as int));
            }
        } else {
            proof {
                assert(sorted@ =~= spec_ranked_entries(rows@, g, n as int));
            }
        }
        out.push(RankedGroup { bot_id: g, repos: sorted });
        ki = ki + 1;
    }
    proof {
        assert(out@.map_values(|gr: RankedGroup| gr.bot_id) =~= keys@);
    }
    out
}

} // verus!
