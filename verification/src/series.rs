//! Time-series densifier: turns sparse `(date, series key, value)` points
//! into one shared, strictly increasing date axis and, per series key, a
//! value column aligned 1:1 with that axis, zero-filled where no point
//! exists.

use vstd::prelude::*;
use crate::dates::{
    spec_date_format, spec_date_of_str, spec_date_timestamp, parse_date_yyyy_mm_dd,
};

verus! {

/// One raw store row: a date rendered `YYYY-MM-DD`, the bot the series
/// belongs to, and the day's count.
pub struct RawSeriesRow {
    pub event_date: String,
    pub bot_id: i64,
    pub repo_count: i64,
}

/// One sparse observation: a date (unix seconds at midnight UTC), the key of
/// the series it belongs to, and the observed value.
#[derive(Clone, Copy, PartialEq, Eq, Structural)]
pub struct SeriesPoint {
    pub date_ts: i64,
    pub key: i64,
    pub value: i64,
}

/// One dense series: its key and one value per axis timestamp.
pub struct ToolSeries {
    pub key: i64,
    pub values: Vec<i64>,
}

/// The dense matrix: shared axis plus one aligned column per series key,
/// columns in first-seen order of their key.
pub struct LeaderboardData {
    pub timestamps: Vec<i64>,
    pub tools: Vec<ToolSeries>,
}

/// Does some point carry this date?
pub open spec fn spec_ts_present(rows: Seq<SeriesPoint>, t: i64) -> bool {
    exists|i: int| 0 <= i < rows.len() && rows[i].date_ts == t
}

/// The distinct dates among the points.
pub open spec fn spec_ts_set(rows: Seq<SeriesPoint>) -> Set<i64> {
    Set::new(|t: i64| spec_ts_present(rows, t))
}

/// The distinct series keys, in first-seen order.
pub open spec fn spec_distinct_keys(rows: Seq<SeriesPoint>) -> Seq<i64>
    decreases rows.len(),
{
    if rows.len() == 0 {
        Seq::<i64>::empty()
    } else {
        let p = spec_distinct_keys(rows.drop_last());
        if p.contains(rows.last().key) {
            p
        } else {
            p.push(rows.last().key)
        }
    }
}

/// The value of series `k` on date `t`: the value of the last point carrying
/// `(t, k)`, or zero when no point does.
pub open spec fn spec_value_at(rows: Seq<SeriesPoint>, t: i64, k: i64) -> i64
    decreases rows.len(),
{
    if rows.len() == 0 {
        0
    } else if rows.last().date_ts == t && rows.last().key == k {
        rows.last().value
    } else {
        spec_value_at(rows.drop_last(), t, k)
    }
}

/// A cell is non-zero only where some input point carries that
/// `(date, key)` pair.
pub proof fn lemma_value_nonzero_has_row(rows: Seq<SeriesPoint>, t: i64, k: i64)
    ensures
        spec_value_at(rows, t, k) != 0 ==> exists|i: int|
            0 <= i < rows.len() && rows[i].date_ts == t && rows[i].key == k,
    decreases rows.len(),
{
    if rows.len() > 0 {
        if rows.last().date_ts == t && rows.last().key == k {
            assert(rows[rows.len() - 1].date_ts == t && rows[rows.len() - 1].key == k);
        } else {
            lemma_value_nonzero_has_row(rows.drop_last(), t, k);
            if spec_value_at(rows, t, k) != 0 {
                let i = choose|i: int| #![trigger rows.drop_last()[i]]
                    0 <= i < rows.drop_last().len() && rows.drop_last()[i].date_ts == t
                        && rows.drop_last()[i].key == k;
                assert(rows[i].date_ts == t && rows[i].key == k);
            }
        }
    }
}

/// A strictly increasing axis whose members are exactly the dates present
/// has exactly one entry per distinct date present.
pub proof fn lemma_axis_counts_distinct_dates(rows: Seq<SeriesPoint>, timestamps: Seq<i64>)
    requires
        forall|i: int, j: int| 0 <= i < j < timestamps.len() ==> timestamps[i] < timestamps[j],
        forall|t: i64| timestamps.contains(t) <==> spec_ts_present(rows, t),
    ensures
        timestamps.len() == spec_ts_set(rows).len(),
{
    assert(timestamps.no_duplicates()) by {
        assert forall|i: int, j: int|
            0 <= i < timestamps.len() && 0 <= j < timestamps.len() && i != j
            implies timestamps[i] != timestamps[j] by {
            if i < j {
                assert(timestamps[i] < timestamps[j]);
            } else {
                assert(timestamps[j] < timestamps[i]);
            }
        }
    };
    timestamps.unique_seq_to_set();
    assert(timestamps.to_set() =~= spec_ts_set(rows));
}

/// What the densifier guarantees of a non-empty (or any) input, taken
/// together: the axis counts exactly the distinct dates present, every
/// column is as long as the axis, and a non-zero cell always stems from an
/// input point with that `(date, key)` pair.
pub proof fn lemma_dense_matrix_sound(
    rows: Seq<SeriesPoint>,
    timestamps: Seq<i64>,
    tools: Seq<ToolSeries>,
)
    requires
        forall|i: int, j: int| 0 <= i < j < timestamps.len() ==> timestamps[i] < timestamps[j],
        forall|t: i64| timestamps.contains(t) <==> spec_ts_present(rows, t),
        forall|j: int| 0 <= j < tools.len()
            ==> (#[trigger] tools[j]).values@.len() == timestamps.len(),
        forall|j: int, i: int| 0 <= j < tools.len() && 0 <= i < timestamps.len()
            ==> #[trigger] tools[j].values@[i]
                == spec_value_at(rows, timestamps[i], tools[j].key),
    ensures
        timestamps.len() == spec_ts_set(rows).len(),
        forall|j: int, i: int|
            0 <= j < tools.len() && 0 <= i < timestamps.len()
                && #[trigger] tools[j].values@[i] != 0
            ==> exists|q: int| 0 <= q < rows.len() && (#[trigger] rows[q]).date_ts == timestamps[i]
                && rows[q].key == tools[j].key,
{
    lemma_axis_counts_distinct_dates(rows, timestamps);
    assert forall|j: int, i: int|
        0 <= j < tools.len() && 0 <= i < timestamps.len() && #[trigger] tools[j].values@[i] != 0
        implies exists|q: int| 0 <= q < rows.len() && (#[trigger] rows[q]).date_ts == timestamps[i]
            && rows[q].key == tools[j].key by {
        lemma_value_nonzero_has_row(rows, timestamps[i], tools[j].key);
    };
}

/// Build the dense matrix. The axis is the strictly increasing sequence of
/// exactly the dates present among the points; each column belongs to one
/// distinct key (first-seen order), has one cell per axis entry, and cell
/// `i` holds the value of the last point carrying `(timestamps[i], key)`,
/// zero when none does.
pub fn densify(rows: &Vec<SeriesPoint>) -> (r: LeaderboardData)
    ensures
        forall|i: int, j: int| 0 <= i < j < r.timestamps@.len()
            ==> r.timestamps@[i] < r.timestamps@[j],
        forall|t: i64| r.timestamps@.contains(t) <==> spec_ts_present(rows@, t),
        r.tools@.map_values(|c: ToolSeries| c.key) == spec_distinct_keys(rows@),
        forall|j: int| 0 <= j < r.tools@.len()
            ==> (#[trigger] r.tools@[j]).values@.len() == r.timestamps@.len(),
        forall|j: int, i: int| 0 <= j < r.tools@.len() && 0 <= i < r.timestamps@.len()
            ==> #[trigger] r.tools@[j].values@[i]
                == spec_value_at(rows@, r.timestamps@[i], r.tools@[j].key),
        rows@.len() == 0 ==> r.timestamps@.len() == 0 && r.tools@.len() == 0,
{
    let n = rows.len();

    // Phase 1: the sorted, duplicate-free date axis.
    let mut timestamps: Vec<i64> = Vec::new();
    let mut ri: usize = 0;
    while ri < n
        invariant
            ri <= n,
            n == rows@.len(),
            forall|i: int, j: int| 0 <= i < j < timestamps@.len()
                ==> timestamps@[i] < timestamps@[j],
            forall|t: i64| timestamps@.contains(t) <==> spec_ts_present(rows@.take(ri as int), t),
        decreases n - ri,
    {
        let t = rows[ri].date_ts;
        let mut p: usize = 0;
        while p < timestamps.len() && timestamps[p] < t
            invariant
                p <= timestamps@.len(),
                forall|q: int| 0 <= q < p ==> timestamps@[q] < t,
                forall|i: int, j: int| 0 <= i < j < timestamps@.len()
                    ==> timestamps@[i] < timestamps@[j],
            decreases timestamps@.len() - p,
        {
            p = p + 1;
        }
        let ghost old_ts = timestamps@;
        proof {
            assert(rows@.take(ri as int + 1).drop_last() =~= rows@.take(ri as int));
            assert(rows@.take(ri as int + 1).last() == rows@[ri as int]);
        }
        if p == timestamps.len() || timestamps[p] > t {
            timestamps.insert(p, t);
            proof {
                assert(timestamps@[p as int] == t);
                assert forall|x: i64| timestamps@.contains(x)
                    implies spec_ts_present(rows@.take(ri as int + 1), x) by {
                    let q = choose|q: int| 0 <= q < timestamps@.len() && timestamps@[q] == x;
                    if q == p as int {
                        assert(rows@.take(ri as int + 1)[ri as int].date_ts == x);
                    } else {
                        let qo: int = if q < p as int { q } else { q - 1 };
                        assert(old_ts[qo] == x);
                        assert(old_ts.contains(x));
                        assert(spec_ts_present(rows@.take(ri as int), x));
                        let i = choose|i: int| #![trigger rows@.take(ri as int)[i]]
                            0 <= i < rows@.take(ri as int).len()
                            && rows@.take(ri as int)[i].date_ts == x;
                        assert(rows@.take(ri as int + 1)[i].date_ts == x);
                    }
                };
                assert forall|x: i64| spec_ts_present(rows@.take(ri as int + 1), x)
                    implies timestamps@.contains(x) by {
                    let i = choose|i: int| #![trigger rows@.take(ri as int + 1)[i]]
                        0 <= i < rows@.take(ri as int + 1).len()
                        && rows@.take(ri as int + 1)[i].date_ts == x;
                    if i < ri as int {
                        assert(rows@.take(ri as int)[i].date_ts == x);
                        assert(spec_ts_present(rows@.take(ri as int), x));
                        assert(old_ts.contains(x));
                        let q = choose|q: int| 0 <= q < old_ts.len() && old_ts[q] == x;
                        if q < p as int {
                            assert(timestamps@[q] == x);
                        } else {
                            assert(timestamps@[q + 1] == x);
                        }
                    } else {
                        assert(x == t);
                        assert(timestamps@[p as int] == x);
                    }
                };
            }
        } else {
            proof {
                assert(timestamps@[p as int] == t);
                assert(timestamps@.contains(t));
                assert forall|x: i64| timestamps@.contains(x)
                    implies spec_ts_present(rows@.take(ri as int + 1), x) by {
                    assert(spec_ts_present(rows@.take(ri as int), x));
                    let i = choose|i: int| #![trigger rows@.take(ri as int)[i]]
                        0 <= i < rows@.take(ri as int).len()
                        && rows@.take(ri as int)[i].date_ts == x;
                    assert(rows@.take(ri as int + 1)[i].date_ts == x);
                };
                assert forall|x: i64| spec_ts_present(rows@.take(ri as int + 1), x)
                    implies timestamps@.contains(x) by {
                    let i = choose|i: int| #![trigger rows@.take(ri as int + 1)[i]]
                        0 <= i < rows@.take(ri as int + 1).len()
                        && rows@.take(ri as int + 1)[i].date_ts == x;
                    if i < ri as int {
                        assert(rows@.take(ri as int)[i].date_ts == x);
                        assert(spec_ts_present(rows@.take(ri as int), x));
                    } else {
                        assert(x == t);
                    }
                };
            }
        }
        ri = ri + 1;
    }
    proof {
        assert(rows@.take(n as int) =~= rows@);
    }

    // Phase 2: distinct series keys, first-seen order.
    let mut keys: Vec<i64> = Vec::new();
    let mut rk: usize = 0;
    while rk < n
        invariant
            rk <= n,
            n == rows@.len(),
            keys@ == spec_distinct_keys(rows@.take(rk as int)),
        decreases n - rk,
    {
        let k = rows[rk].key;
        let mut found = false;
        let mut q: usize = 0;
        while q < keys.len()
            invariant
                q <= keys@.len(),
                found == keys@.take(q as int).contains(k),
            decreases keys@.len() - q,
        {
            if keys[q] == k {
                found = true;
            }
            proof {
                assert(keys@.take(q as int + 1).drop_last() =~= keys@.take(q as int));
                assert(keys@.take(q as int + 1).last() == keys@[q as int]);
                if found && !keys@.take(q as int).contains(k) && keys@[q as int] != k {
                    assert(false);
                }
                if keys@.take(q as int + 1).contains(k) && !keys@.take(q as int).contains(k) {
                    assert(keys@.take(q as int + 1)[keys@.take(q as int + 1).len() - 1] == keys@[q as int]);
                }
            }
            q = q + 1;
        }
        proof {
            assert(keys@.take(keys@.len() as int) =~= keys@);
            assert(rows@.take(rk as int + 1).drop_last() =~= rows@.take(rk as int));
        }
        if !found {
            keys.push(k);
        }
        rk = rk + 1;
    }

    // Phase 3: one aligned, zero-filled column per key.
    let axis_len = timestamps.len();
    let mut tools: Vec<ToolSeries> = Vec::new();
    let mut ki: usize = 0;
    while ki < keys.len()
        invariant
            ki <= keys@.len(),
            n == rows@.len(),
            tools@.len() == ki,
            forall|i: int, j: int| 0 <= i < j < timestamps@.len()
                ==> timestamps@[i] < timestamps@[j],
            forall|t: i64| timestamps@.contains(t) <==> spec_ts_present(rows@, t),
            axis_len == timestamps@.len(),
            forall|j: int| 0 <= j < ki ==> (#[trigger] tools@[j]).key == keys@[j],
            forall|j: int| 0 <= j < ki
                ==> (#[trigger] tools@[j]).values@.len() == timestamps@.len(),
            forall|j: int, i: int| 0 <= j < ki && 0 <= i < timestamps@.len()
                ==> #[trigger] tools@[j].values@[i]
                    == spec_value_at(rows@, timestamps@[i], keys@[j]),
        decreases keys@.len() - ki,
    {
        let k = keys[ki];
        let mut values: Vec<i64> = vec![0i64; axis_len];
        proof {
            assert(rows@.take(0) =~= Seq::<SeriesPoint>::empty());
        }
        let mut rv: usize = 0;
        while rv < n
            invariant
                rv <= n,
                n == rows@.len(),
                axis_len == timestamps@.len(),
                values@.len() == timestamps@.len(),
                forall|i: int, j: int| 0 <= i < j < timestamps@.len()
                    ==> timestamps@[i] < timestamps@[j],
                forall|t: i64| timestamps@.contains(t) <==> spec_ts_present(rows@, t),
                forall|i: int| 0 <= i < timestamps@.len()
                    ==> values@[i] == spec_value_at(rows@.take(rv as int), timestamps@[i], k),
            decreases n - rv,
        {
            let row = rows[rv];
            proof {
                assert(rows@.take(rv as int + 1).drop_last() =~= rows@.take(rv as int));
                assert(rows@.take(rv as int + 1).last() == rows@[rv as int]);
            }
            if row.key == k {
                let t = row.date_ts;
                proof {
                    assert(rows@[rv as int].date_ts == t);
                    assert(spec_ts_present(rows@, t));
                }
                let mut p: usize = 0;
                while p < axis_len && timestamps[p] != t
                    invariant
                        p <= timestamps@.len(),
                        axis_len == timestamps@.len(),
                        forall|q: int| 0 <= q < p ==> timestamps@[q] != t,
                        timestamps@.contains(t),
                    decreases timestamps@.len() - p,
                {
                    p = p + 1;
                }
                proof {
                    if p == timestamps@.len() {
                        let q = choose|q: int| 0 <= q < timestamps@.len() && timestamps@[q] == t;
                        assert(false);
                    }
                }
                values[p] = row.value;
                proof {
                    assert forall|i: int| 0 <= i < timestamps@.len()
                        implies values@[i]
                            == spec_value_at(rows@.take(rv as int + 1), timestamps@[i], k) by {
                        if i == p as int {
                            assert(values@[i] == row.value);
                        } else {
                            if timestamps@[i] == t {
                                if i < p as int {
                                    assert(timestamps@[i] < timestamps@[p as int]);
                                } else {
                                    assert(timestamps@[p as int] < timestamps@[i]);
                                }
                                assert(false);
                            }
                        }
                    };
                }
            }
            rv = rv + 1;
        }
        proof {
            assert(rows@.take(n as int) =~= rows@);
        }
        tools.push(ToolSeries { key: k, values });
        ki = ki + 1;
    }
    proof {
        assert(tools@.map_values(|c: ToolSeries| c.key) =~= keys@);
        if rows@.len() == 0 {
            if timestamps@.len() > 0 {
                assert(timestamps@.contains(timestamps@[0]));
                assert(false);
            }
        }
    }
    LeaderboardData { timestamps, tools }
}

} // verus!

verus! {

/// The points that the raw rows' parseable dates yield, in row order; a
/// row whose date does not parse contributes nothing.
pub open spec fn spec_parsed_points(rows: Seq<RawSeriesRow>) -> Seq<SeriesPoint>
    decreases rows.len(),
{
    if rows.len() == 0 {
        Seq::<SeriesPoint>::empty()
    } else {
        spec_parsed_points(rows.drop_last())
            + if spec_date_format(rows.last().event_date@)
                && spec_date_of_str(rows.last().event_date@).valid() {
            seq![SeriesPoint {
                date_ts: spec_date_timestamp(
                    spec_date_of_str(rows.last().event_date@).year as int,
                    spec_date_of_str(rows.last().event_date@).month as int,
                    spec_date_of_str(rows.last().event_date@).day as int,
                ) as i64,
                key: rows.last().bot_id,
                value: rows.last().repo_count,
            }]
        } else {
            Seq::<SeriesPoint>::empty()
        }
    }
}

/// The leaderboard matrix of raw store rows: parse each date, skip rows
/// whose date does not parse, and densify the rest. The contract is the
/// densifier's, over the parsed points.
pub fn leaderboard_from_rows(rows: &Vec<RawSeriesRow>) -> (r: LeaderboardData)
    ensures
        forall|i: int, j: int| 0 <= i < j < r.timestamps@.len()
            ==> r.timestamps@[i] < r.timestamps@[j],
        forall|t: i64| r.timestamps@.contains(t)
            <==> spec_ts_present(spec_parsed_points(rows@), t),
        r.tools@.map_values(|c: ToolSeries| c.key) == spec_distinct_keys(spec_parsed_points(rows@)),
        forall|j: int| 0 <= j < r.tools@.len()
            ==> (#[trigger] r.tools@[j]).values@.len() == r.timestamps@.len(),
        forall|j: int, i: int| 0 <= j < r.tools@.len() && 0 <= i < r.timestamps@.len()
            ==> #[trigger] r.tools@[j].values@[i]
                == spec_value_at(spec_parsed_points(rows@), r.timestamps@[i], r.tools@[j].key),
        spec_parsed_points(rows@).len() == 0 ==> r.timestamps@.len() == 0 && r.tools@.len() == 0,
{
    let n = rows.len();
    let mut pts: Vec<SeriesPoint> = Vec::new();
    let mut i: usize = 0;
    proof {
        assert(rows@.take(0) =~= Seq::<RawSeriesRow>::empty());
        assert(pts@ =~= spec_parsed_points(rows@.take(0)));
    }
    while i < n
        invariant
            i <= n,
            n == rows@.len(),
            pts@ == spec_parsed_points(rows@.take(i as int)),
        decreases n - i,
    {
        proof {
            assert(rows@.take(i as int + 1).drop_last() =~= rows@.take(i as int));
            assert(rows@.take(i as int + 1).last() == rows@[i as int]);
        }
        let row = &rows[i];
        match parse_date_yyyy_mm_dd(row.event_date.as_str()) {
            Some(ts) => {
                pts.push(SeriesPoint { date_ts: ts, key: row.bot_id, value: row.repo_count });
                proof {
                    assert(pts@ =~= spec_parsed_points(rows@.take(i as int + 1)));
                }
            },
            None => {
                proof {
                    assert(pts@ =~= spec_parsed_points(rows@.take(i as int + 1)));
                }
            },
        }
        i = i + 1;
    }
    proof {
        assert(rows@.take(n as int) =~= rows@);
    }
    densify(&pts)
}

} // verus!
