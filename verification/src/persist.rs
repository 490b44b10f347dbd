//! Planning of the daily-sharded persistence: converting the bucket table
//! to and from row form, grouping rows and chunks by day, shard file
//! names, and merging loaded analytics payloads. Reading and writing the
//! files themselves is the runtime's job; everything here is a pure
//! function of its arguments.

use crate::event::{StatsKey, StatsKeyV, StatsValue};
use crate::sort::{sort_by_stable, sort_vec, views_of, SortOrder};
use crate::state::{
    assoc_first, distinct_keys, lemma_assoc_first, sat_add_u64, saturating_add_u64, CollectorState,
    CollectorStateV,
};
use crate::text::{lex_le, lemma_lex_le_antisym, lemma_lex_le_total, lemma_lex_le_trans, str_eq, str_le};
use vstd::prelude::*;

verus! {

/// One persisted bucket row.
pub struct StoredRow {
    pub date: String,
    pub app_name: String,
    pub window_title: String,
    pub active_typing_ms: u64,
    pub key_count: u64,
    pub session_count: u64,
}

/// Ghost image of a `StoredRow`.
pub struct StoredRowV {
    pub date: Seq<char>,
    pub app_name: Seq<char>,
    pub window_title: Seq<char>,
    pub active_typing_ms: u64,
    pub key_count: u64,
    pub session_count: u64,
}

impl View for StoredRow {
    type V = StoredRowV;

    open spec fn view(&self) -> StoredRowV {
        StoredRowV {
            date: self.date@,
            app_name: self.app_name@,
            window_title: self.window_title@,
            active_typing_ms: self.active_typing_ms,
            key_count: self.key_count,
            session_count: self.session_count,
        }
    }
}

impl Clone for StoredRow {
    fn clone(&self) -> (r: Self)
        ensures
            r@ == self@,
    {
        StoredRow {
            date: self.date.clone(),
            app_name: self.app_name.clone(),
            window_title: self.window_title.clone(),
            active_typing_ms: self.active_typing_ms,
            key_count: self.key_count,
            session_count: self.session_count,
        }
    }
}

impl SortOrder for StoredRow {
    open spec fn leq(a: StoredRowV, b: StoredRowV) -> bool {
        if a.date != b.date {
            lex_le(a.date, b.date)
        } else if a.app_name != b.app_name {
            lex_le(a.app_name, b.app_name)
        } else {
            lex_le(a.window_title, b.window_title)
        }
    }

    fn leq_exec(&self, other: &Self) -> (r: bool) {
        if !self.date.eq(&other.date) {
            str_le(self.date.as_str(), other.date.as_str())
        } else if !self.app_name.eq(&other.app_name) {
            str_le(self.app_name.as_str(), other.app_name.as_str())
        } else {
            str_le(self.window_title.as_str(), other.window_title.as_str())
        }
    }

    proof fn lemma_leq_total(a: StoredRowV, b: StoredRowV) {
        if a.date != b.date {
            lemma_lex_le_total(a.date, b.date);
        } else if a.app_name != b.app_name {
            lemma_lex_le_total(a.app_name, b.app_name);
        } else {
            lemma_lex_le_total(a.window_title, b.window_title);
        }
    }

    proof fn lemma_leq_trans(a: StoredRowV, b: StoredRowV, c: StoredRowV) {
        if a.date != b.date && b.date != c.date && a.date == c.date {
            lemma_lex_le_antisym(a.date, b.date);
        } else if a.date != b.date && b.date != c.date {
            lemma_lex_le_trans(a.date, b.date, c.date);
        } else if a.date == b.date && b.date == c.date {
            if a.app_name != b.app_name && b.app_name != c.app_name && a.app_name == c.app_name {
                lemma_lex_le_antisym(a.app_name, b.app_name);
            } else if a.app_name != b.app_name && b.app_name != c.app_name {
                lemma_lex_le_trans(a.app_name, b.app_name, c.app_name);
            } else if a.app_name == b.app_name && b.app_name == c.app_name {
                lemma_lex_le_trans(a.window_title, b.window_title, c.window_title);
            }
        }
    }
}

/// The row a bucket entry is stored as.
pub open spec fn row_of_entry(p: (StatsKeyV, StatsValue)) -> StoredRowV {
    StoredRowV {
        date: p.0.date,
        app_name: p.0.app_name,
        window_title: p.0.window_title,
        active_typing_ms: p.1.active_typing_ms,
        key_count: p.1.key_count,
        session_count: p.1.session_count,
    }
}

/// The bucket key a stored row belongs to.
pub open spec fn key_of_row(r: StoredRowV) -> StatsKeyV {
    StatsKeyV { date: r.date, app_name: r.app_name, window_title: r.window_title }
}

/// The bucket table as stored rows, sorted by date, application, window.
pub open spec fn stored_rows_of(stats: Seq<(StatsKeyV, StatsValue)>) -> Seq<StoredRowV> {
    sort_by_stable(
        stats.map_values(|p: (StatsKeyV, StatsValue)| row_of_entry(p)),
        |a: StoredRowV, b: StoredRowV| <StoredRow as SortOrder>::leq(a, b),
    )
}

/// Converts the bucket table to sorted stored rows.
pub fn stats_to_rows(stats: &Vec<(StatsKey, StatsValue)>) -> (r: Vec<StoredRow>)
    ensures
        views_of(r@) == stored_rows_of(stats@.map_values(|p: (StatsKey, StatsValue)| (p.0@, p.1))),
{
    let ghost f = |p: (StatsKey, StatsValue)| (p.0@, p.1);
    let ghost rowv = |p: (StatsKeyV, StatsValue)| row_of_entry(p);
    let mut rows: Vec<StoredRow> = Vec::new();
    let mut i: usize = 0;
    proof {
        assert(views_of(rows@) =~= stats@.subrange(0, 0).map_values(f).map_values(rowv));
    }
    while i < stats.len()
        invariant
            f == (|p: (StatsKey, StatsValue)| (p.0@, p.1)),
            rowv == (|p: (StatsKeyV, StatsValue)| row_of_entry(p)),
            i <= stats@.len(),
            views_of(rows@) == stats@.subrange(0, i as int).map_values(f).map_values(rowv),
        decreases stats@.len() - i,
    {
        let ghost pre = rows@;
        let key = &stats[i].0;
        let value = stats[i].1;
        rows.push(
            StoredRow {
                date: key.date.clone(),
                app_name: key.app_name.clone(),
                window_title: key.window_title.clone(),
                active_typing_ms: value.active_typing_ms,
                key_count: value.key_count,
                session_count: value.session_count,
            },
        );
        proof {
            assert(pre.len() == i) by {
                assert(views_of(pre).len() == pre.len());
            }
            assert forall|k: int| 0 <= k < i + 1 implies views_of(rows@)[k] == stats@.subrange(
                0,
                i + 1,
            ).map_values(f).map_values(rowv)[k] by {
                if k < i {
                    assert(views_of(pre)[k] == stats@.subrange(0, i as int).map_values(
                        f,
                    ).map_values(rowv)[k]);
                }
            }
            assert(views_of(rows@) =~= stats@.subrange(0, i + 1).map_values(f).map_values(rowv));
        }
        i = i + 1;
    }
    proof {
        assert(stats@.subrange(0, stats@.len() as int) =~= stats@);
        assert(stats@.map_values(f).map_values(rowv) == stats@.map_values(f).map_values(
            |p: (StatsKeyV, StatsValue)| row_of_entry(p),
        ));
    }
    sort_vec(rows)
}

/// One row folded into a bucket table: an existing bucket absorbs the
/// row's counters, clamped at the representation bound; an unseen key
/// opens a bucket with the row's counters.
pub open spec fn upsert_row(acc: Seq<(StatsKeyV, StatsValue)>, r: StoredRowV) -> Seq<
    (StatsKeyV, StatsValue),
> {
    let k = key_of_row(r);
    let j = assoc_first(acc, k);
    if j < 0 {
        acc.push(
            (
                k,
                StatsValue {
                    active_typing_ms: r.active_typing_ms,
                    key_count: r.key_count,
                    session_count: r.session_count,
                },
            ),
        )
    } else {
        acc.update(
            j,
            (
                k,
                StatsValue {
                    active_typing_ms: sat_add_u64(acc[j].1.active_typing_ms, r.active_typing_ms),
                    key_count: sat_add_u64(acc[j].1.key_count, r.key_count),
                    session_count: sat_add_u64(acc[j].1.session_count, r.session_count),
                },
            ),
        )
    }
}

/// A whole row list folded into a bucket table, first row first. Rows that
/// share a key are summed.
pub open spec fn rows_to_stats_spec(rows: Seq<StoredRowV>) -> Seq<(StatsKeyV, StatsValue)>
    decreases rows.len(),
{
    if rows.len() == 0 {
        Seq::empty()
    } else {
        upsert_row(rows_to_stats_spec(rows.drop_last()), rows.last())
    }
}

proof fn lemma_upsert_row_distinct(acc: Seq<(StatsKeyV, StatsValue)>, r: StoredRowV)
    requires
        distinct_keys(acc),
    ensures
        distinct_keys(upsert_row(acc, r)),
{
    lemma_assoc_first(acc, key_of_row(r));
    let j = assoc_first(acc, key_of_row(r));
    let nb = upsert_row(acc, r);
    if j < 0 {
        assert forall|x: int, y: int| #![trigger nb[x], nb[y]] 0 <= x < y < nb.len() implies nb[x].0
            != nb[y].0 by {
            if y == nb.len() - 1 {
                assert(acc[x].0 != key_of_row(r));
            } else {
                assert(acc[x].0 != acc[y].0);
            }
        }
    } else {
        assert forall|x: int, y: int| #![trigger nb[x], nb[y]] 0 <= x < y < nb.len() implies nb[x].0
            != nb[y].0 by {
            assert(acc[x].0 != acc[y].0);
        }
    }
}

/// The merge of any row list has distinct keys.
pub proof fn lemma_rows_to_stats_distinct(rows: Seq<StoredRowV>)
    ensures
        distinct_keys(rows_to_stats_spec(rows)),
    decreases rows.len(),
{
    if rows.len() > 0 {
        lemma_rows_to_stats_distinct(rows.drop_last());
        lemma_upsert_row_distinct(rows_to_stats_spec(rows.drop_last()), rows.last());
    }
}

/// Folds loaded rows into a bucket table, summing rows that share a key.
pub fn rows_to_stats(rows: Vec<StoredRow>) -> (r: Vec<(StatsKey, StatsValue)>)
    ensures
        r@.map_values(|p: (StatsKey, StatsValue)| (p.0@, p.1)) == rows_to_stats_spec(
            views_of(rows@),
        ),
        distinct_keys(r@.map_values(|p: (StatsKey, StatsValue)| (p.0@, p.1))),
{
    let ghost f = |p: (StatsKey, StatsValue)| (p.0@, p.1);
    let ghost rv = views_of(rows@);
    let mut acc: Vec<(StatsKey, StatsValue)> = Vec::new();
    let mut i: usize = 0;
    proof {
        assert(acc@.map_values(f) =~= Seq::<(StatsKeyV, StatsValue)>::empty());
        assert(rv.subrange(0, 0) =~= Seq::<StoredRowV>::empty());
        assert(distinct_keys(acc@.map_values(f)));
    }
    while i < rows.len()
        invariant
            f == (|p: (StatsKey, StatsValue)| (p.0@, p.1)),
            rv == views_of(rows@),
            i <= rows@.len(),
            acc@.map_values(f) == rows_to_stats_spec(rv.subrange(0, i as int)),
            distinct_keys(acc@.map_values(f)),
        decreases rows@.len() - i,
    {
        let ghost pre = acc@.map_values(f);
        let row = &rows[i];
        let key = StatsKey {
            date: row.date.clone(),
            app_name: row.app_name.clone(),
            window_title: row.window_title.clone(),
        };
        proof {
            assert(key@ == key_of_row(rv[i as int])) by {
                assert(rv[i as int] == rows@[i as int]@);
            }
        }
        let ghost target = upsert_row(pre, rv[i as int]);
        upsert_into(&mut acc, key, row.active_typing_ms, row.key_count, row.session_count);
        proof {
            assert(acc@.map_values(f) == target);
            assert(rv.subrange(0, i + 1).drop_last() =~= rv.subrange(0, i as int));
            assert(rv.subrange(0, i + 1).last() == rv[i as int]);
            lemma_upsert_row_distinct(pre, rv[i as int]);
        }
        i = i + 1;
    }
    proof {
        assert(rv.subrange(0, rv.len() as int) =~= rv);
    }
    acc
}

/// Adds one row's counters into the table under `key`.
fn upsert_into(
    acc: &mut Vec<(StatsKey, StatsValue)>,
    key: StatsKey,
    active_typing_ms: u64,
    key_count: u64,
    session_count: u64,
)
    ensures
        final(acc)@.map_values(|p: (StatsKey, StatsValue)| (p.0@, p.1)) == upsert_row(
            old(acc)@.map_values(|p: (StatsKey, StatsValue)| (p.0@, p.1)),
            StoredRowV {
                date: key@.date,
                app_name: key@.app_name,
                window_title: key@.window_title,
                active_typing_ms,
                key_count,
                session_count,
            },
        ),
{
    let ghost f = |p: (StatsKey, StatsValue)| (p.0@, p.1);
    let ghost pre = acc@.map_values(f);
    let ghost rview = StoredRowV {
        date: key@.date,
        app_name: key@.app_name,
        window_title: key@.window_title,
        active_typing_ms,
        key_count,
        session_count,
    };
    proof {
        assert(key_of_row(rview) == key@);
    }
    let mut i: usize = 0;
    let mut found: bool = false;
    while i < acc.len()
        invariant
            f == (|p: (StatsKey, StatsValue)| (p.0@, p.1)),
            acc == old(acc),
            pre == acc@.map_values(f),
            i <= acc@.len(),
            found ==> i < acc@.len() && pre[i as int].0 == key@,
            forall|j: int| 0 <= j < i ==> (#[trigger] pre[j]).0 != key@,
        ensures
            acc == old(acc),
            pre == acc@.map_values(f),
            found ==> i < acc@.len() && pre[i as int].0 == key@,
            forall|j: int| 0 <= j < i ==> (#[trigger] pre[j]).0 != key@,
            !found ==> forall|j: int| 0 <= j < acc@.len() ==> (#[trigger] pre[j]).0 != key@,
        decreases acc@.len() - i,
    {
        if acc[i].0.key_eq(&key) {
            found = true;
            proof {
                assert(pre[i as int].0 == key@);
            }
            break ;
        }
        proof {
            assert(pre[i as int].0 == acc@[i as int].0@);
        }
        i = i + 1;
    }
    proof {
        lemma_assoc_first(pre, key@);
        let j = assoc_first(pre, key@);
        if found {
            assert(j == i) by {
                if j < i {
                    assert(pre[j].0 != key@);
                }
                if j > i || j < 0 {
                    assert(pre[i as int].0 == key@);
                }
            }
        } else {
            assert(j < 0) by {
                if j >= 0 {
                    assert(pre[j].0 == key@);
                }
            }
        }
    }
    if found {
        let entry = acc.remove(i);
        let merged = StatsValue {
            active_typing_ms: saturating_add_u64(entry.1.active_typing_ms, active_typing_ms),
            key_count: saturating_add_u64(entry.1.key_count, key_count),
            session_count: saturating_add_u64(entry.1.session_count, session_count),
        };
        acc.insert(i, (entry.0, merged));
        proof {
            let target = upsert_row(pre, rview);
            assert(acc@.len() == old(acc)@.len());
            assert forall|k: int| 0 <= k < acc@.len() implies f(#[trigger] acc@[k]) == target[k] by {
                if k != i {
                    assert(acc@[k] == old(acc)@[k]);
                    assert(f(old(acc)@[k]) == pre[k]);
                } else {
                    assert(f(old(acc)@[i as int]) == pre[i as int]);
                }
            }
            assert(acc@.map_values(f) =~= target);
        }
    } else {
        acc.push(
            (key, StatsValue { active_typing_ms, key_count, session_count }),
        );
        proof {
            assert(acc@.map_values(f) =~= upsert_row(pre, rview));
        }
    }
}

} // verus!

verus! {

/// All bucket keys of a row list are distinct.
pub open spec fn rows_have_distinct_keys(rows: Seq<StoredRowV>) -> bool {
    forall|i: int, j: int|
        #![trigger rows[i], rows[j]]
        0 <= i < j < rows.len() ==> key_of_row(rows[i]) != key_of_row(rows[j])
}

/// The bucket entry a row alone loads to.
pub open spec fn entry_of_row(r: StoredRowV) -> (StatsKeyV, StatsValue) {
    (
        key_of_row(r),
        StatsValue {
            active_typing_ms: r.active_typing_ms,
            key_count: r.key_count,
            session_count: r.session_count,
        },
    )
}

/// Folding rows with pairwise-distinct keys opens one bucket per row, in
/// order, with the row's own counters.
pub proof fn lemma_rows_to_stats_of_distinct(rows: Seq<StoredRowV>)
    requires
        rows_have_distinct_keys(rows),
    ensures
        rows_to_stats_spec(rows) == rows.map_values(|r: StoredRowV| entry_of_row(r)),
    decreases rows.len(),
{
    let g = |r: StoredRowV| entry_of_row(r);
    if rows.len() == 0 {
        assert(rows_to_stats_spec(rows) =~= rows.map_values(g));
    } else {
        let front = rows.drop_last();
        assert(rows_have_distinct_keys(front)) by {
            assert(forall|i: int, j: int|
                #![trigger front[i], front[j]]
                0 <= i < j < front.len() ==> key_of_row(rows[i]) != key_of_row(rows[j]));
        }
        lemma_rows_to_stats_of_distinct(front);
        let acc = rows_to_stats_spec(front);
        let k = key_of_row(rows.last());
        lemma_assoc_first(acc, k);
        assert(assoc_first(acc, k) < 0) by {
            if assoc_first(acc, k) >= 0 {
                let j = assoc_first(acc, k);
                assert(acc[j] == front.map_values(g)[j]);
                assert(key_of_row(rows[j]) == k);
                assert(key_of_row(rows[rows.len() - 1]) == k);
            }
        }
        assert(rows_to_stats_spec(rows) =~= rows.map_values(g)) by {
            assert(forall|i: int|
                0 <= i < front.len() ==> front.map_values(g)[i] == #[trigger] rows.map_values(
                    g,
                )[i]);
        }
    }
}

/// Saving the bucket table as sorted rows and folding those rows back
/// yields a table that binds every key to exactly the value it had; no
/// key appears or disappears.
pub proof fn lemma_bucket_round_trip(stats: Seq<(StatsKeyV, StatsValue)>)
    requires
        distinct_keys(stats),
    ensures
        forall|k: StatsKeyV| #[trigger]
            crate::state::assoc_get(rows_to_stats_spec(stored_rows_of(stats)), k)
                == crate::state::assoc_get(stats, k),
{
    broadcast use vstd::seq_lib::group_to_multiset_ensures;

    let g = |r: StoredRowV| entry_of_row(r);
    let rowv = |p: (StatsKeyV, StatsValue)| row_of_entry(p);
    let leq = |a: StoredRowV, b: StoredRowV| <StoredRow as SortOrder>::leq(a, b);
    let rows = stats.map_values(rowv);
    let sorted = stored_rows_of(stats);
    assert forall|a: StoredRowV, b: StoredRowV| #[trigger] leq(a, b) || leq(b, a) by {
        <StoredRow as SortOrder>::lemma_leq_total(a, b);
    }
    assert forall|a: StoredRowV, b: StoredRowV, c: StoredRowV|
        #![trigger leq(a, b), leq(b, c)]
        leq(a, b) && leq(b, c) implies leq(a, c) by {
        <StoredRow as SortOrder>::lemma_leq_trans(a, b, c);
    }
    crate::sort::lemma_sort_by_stable_ensures(rows, leq);
    assert(sorted.to_multiset() == rows.to_multiset());
    assert(rows.no_duplicates()) by {
        assert forall|i: int, j: int|
            0 <= i < rows.len() && 0 <= j < rows.len() && i != j implies rows[i] != rows[j] by {
            assert(key_of_row(rows[i]) == stats[i].0);
            assert(key_of_row(rows[j]) == stats[j].0);
            if i < j {
                assert(stats[i].0 != stats[j].0);
            } else {
                assert(stats[j].0 != stats[i].0);
            }
        }
    }
    rows.lemma_multiset_has_no_duplicates();
    assert(forall|x: StoredRowV|
        sorted.to_multiset().contains(x) ==> #[trigger] sorted.to_multiset().count(x) == 1);
    sorted.lemma_multiset_has_no_duplicates_conv();
    assert(rows_have_distinct_keys(sorted)) by {
        assert forall|i: int, j: int|
            #![trigger sorted[i], sorted[j]]
            0 <= i < j < sorted.len() implies key_of_row(sorted[i]) != key_of_row(sorted[j]) by {
            if key_of_row(sorted[i]) == key_of_row(sorted[j]) {
                assert(sorted[i] != sorted[j]);
                assert(sorted.contains(sorted[i]));
                assert(sorted.contains(sorted[j]));
                assert(rows.to_multiset().count(sorted[i]) > 0);
                assert(rows.to_multiset().count(sorted[j]) > 0);
                assert(rows.contains(sorted[i]));
                assert(rows.contains(sorted[j]));
                let a = choose|a: int| 0 <= a < rows.len() && rows[a] == sorted[i];
                let b = choose|b: int| 0 <= b < rows.len() && rows[b] == sorted[j];
                assert(key_of_row(rows[a]) == stats[a].0);
                assert(key_of_row(rows[b]) == stats[b].0);
                assert(a != b);
                if a < b {
                    assert(stats[a].0 != stats[b].0);
                } else {
                    assert(stats[b].0 != stats[a].0);
                }
            }
        }
    }
    lemma_rows_to_stats_of_distinct(sorted);
    let loaded = rows_to_stats_spec(sorted);
    assert forall|k: StatsKeyV| #[trigger]
        crate::state::assoc_get(loaded, k) == crate::state::assoc_get(stats, k) by {
        lemma_assoc_first(loaded, k);
        lemma_assoc_first(stats, k);
        let jl = assoc_first(loaded, k);
        let js = assoc_first(stats, k);
        if js >= 0 {
            let p = stats[js];
            let row = row_of_entry(p);
            assert(rows[js] == row);
            assert(rows.contains(row));
            assert(sorted.to_multiset().count(row) > 0);
            assert(sorted.contains(row));
            let b = choose|b: int| 0 <= b < sorted.len() && sorted[b] == row;
            assert(loaded[b] == entry_of_row(row));
            assert(loaded[b].0 == k);
            assert(jl >= 0) by {
                if jl < 0 {
                    assert(loaded[b].0 != k);
                }
            }
            assert(loaded[jl].0 == k);
            assert(jl == b || loaded[jl].1 == loaded[b].1) by {
                if jl != b {
                    assert(key_of_row(sorted[jl]) == k);
                    assert(key_of_row(sorted[b]) == k);
                }
            }
            assert(entry_of_row(row).1 == p.1);
        } else {
            assert(jl < 0) by {
                if jl >= 0 {
                    let row = sorted[jl];
                    assert(loaded[jl] == entry_of_row(row));
                    assert(key_of_row(row) == k);
                    assert(sorted.contains(row));
                    assert(rows.to_multiset().count(row) > 0);
                    assert(rows.contains(row));
                    let a = choose|a: int| 0 <= a < rows.len() && rows[a] == row;
                    assert(key_of_row(rows[a]) == stats[a].0);
                    assert(stats[a].0 == k);
                }
            }
        }
    }
}

} // verus!

verus! {

/// Index of the last path separator, or `-1`.
pub open spec fn last_slash(s: Seq<char>) -> int
    decreases s.len(),
{
    if s.len() == 0 {
        -1
    } else if s.last() == '/' {
        s.len() - 1
    } else {
        last_slash(s.drop_last())
    }
}

proof fn lemma_last_slash(s: Seq<char>)
    ensures
        -1 <= last_slash(s) < s.len(),
        last_slash(s) == -1 ==> forall|j: int| 0 <= j < s.len() ==> s[j] != '/',
        last_slash(s) >= 0 ==> 0 <= last_slash(s) < s.len() && s[last_slash(s)] == '/' && forall|
            j: int,
        | last_slash(s) < j < s.len() ==> s[j] != '/',
    decreases s.len(),
{
    if s.len() > 0 && s.last() != '/' {
        lemma_last_slash(s.drop_last());
        let t = s.drop_last();
        if last_slash(t) == -1 {
            assert forall|j: int| 0 <= j < s.len() implies s[j] != '/' by {
                if j < s.len() - 1 {
                    assert(t[j] != '/');
                }
            }
        } else {
            assert(s[last_slash(s)] == '/') by {
                assert(t[last_slash(t)] == '/');
            }
            assert forall|j: int| last_slash(s) < j < s.len() implies s[j] != '/' by {
                if j < s.len() - 1 {
                    assert(t[j] != '/');
                }
            }
        }
    }
}

/// The directory part of a path, up to and including the last separator;
/// empty for a bare file name.
pub open spec fn dir_of(p: Seq<char>) -> Seq<char> {
    p.subrange(0, last_slash(p) + 1)
}

/// The file-name part of a path, after the last separator.
pub open spec fn base_of(p: Seq<char>) -> Seq<char> {
    p.subrange(last_slash(p) + 1, p.len() as int)
}

/// Persistence planning rooted at one detail-file path. The daily shards
/// of the bucket table and of the analytics live beside that file.
pub struct JsonFileStorage {
    pub path: String,
}

impl JsonFileStorage {
    /// The detail file's name, or `None` for a path ending in a
    /// separator.
    pub fn base_name(&self) -> (r: Option<String>)
        ensures
            r is Some <==> base_of(self.path@).len() > 0,
            r is Some ==> r.unwrap()@ == base_of(self.path@),
    {
        let (_, base) = split_path(self.path.as_str());
        if base.as_str().unicode_len() == 0 {
            None
        } else {
            Some(base)
        }
    }

    /// The first ten characters of a bucket date label, the calendar day;
    /// `None` for a label too short to carry one.
    pub fn date_prefix(date: &str) -> (r: Option<String>)
        ensures
            r is Some <==> date@.len() >= 10,
            r is Some ==> r.unwrap()@ == date@.subrange(0, 10),
    {
        let len: usize = date.unicode_len();
        if len < 10 {
            return None;
        }
        Some(String::from_str(date.substring_char(0, 10)))
    }

    /// The daily bucket shard beside the detail file: `<day>-<base>`.
    pub fn dated_path(&self, date_prefix: &str) -> (r: Option<String>)
        ensures
            r is Some <==> base_of(self.path@).len() > 0,
            r is Some ==> r.unwrap()@ == dir_of(self.path@) + date_prefix@ + "-"@ + base_of(
                self.path@,
            ),
    {
        let (dir, base) = split_path(self.path.as_str());
        if base.as_str().unicode_len() == 0 {
            return None;
        }
        let mut out = dir;
        out.append(date_prefix);
        out.append("-");
        out.append(base.as_str());
        proof {
            assert(out@ =~= dir_of(self.path@) + date_prefix@ + "-"@ + base_of(self.path@));
        }
        Some(out)
    }

    /// The legacy monolithic analytics file: `analytics-<base>`.
    pub fn analytics_path(&self) -> (r: Option<String>)
        ensures
            r is Some <==> base_of(self.path@).len() > 0,
            r is Some ==> r.unwrap()@ == dir_of(self.path@) + "analytics-"@ + base_of(self.path@),
    {
        let (dir, base) = split_path(self.path.as_str());
        if base.as_str().unicode_len() == 0 {
            return None;
        }
        let mut out = dir;
        out.append("analytics-");
        out.append(base.as_str());
        proof {
            assert(out@ =~= dir_of(self.path@) + "analytics-"@ + base_of(self.path@));
        }
        Some(out)
    }

    /// The suffix every daily analytics shard ends with.
    pub fn analytics_daily_suffix(&self) -> (r: Option<String>)
        ensures
            r is Some <==> base_of(self.path@).len() > 0,
            r is Some ==> r.unwrap()@ == "-analytics-"@ + base_of(self.path@),
    {
        let (_, base) = split_path(self.path.as_str());
        if base.as_str().unicode_len() == 0 {
            return None;
        }
        let mut out = String::from_str("-analytics-");
        out.append(base.as_str());
        proof {
            assert(out@ =~= "-analytics-"@ + base_of(self.path@));
        }
        Some(out)
    }

    /// The daily analytics shard: `<day>-analytics-<base>`.
    pub fn analytics_dated_path(&self, date_prefix: &str) -> (r: Option<String>)
        ensures
            r is Some <==> base_of(self.path@).len() > 0,
            r is Some ==> r.unwrap()@ == dir_of(self.path@) + date_prefix@ + "-analytics-"@
                + base_of(self.path@),
    {
        let (dir, base) = split_path(self.path.as_str());
        if base.as_str().unicode_len() == 0 {
            return None;
        }
        let mut out = dir;
        out.append(date_prefix);
        out.append("-analytics-");
        out.append(base.as_str());
        proof {
            assert(out@ =~= dir_of(self.path@) + date_prefix@ + "-analytics-"@ + base_of(
                self.path@,
            ));
        }
        Some(out)
    }
}

/// Splits a path at its last separator.
fn split_path(p: &str) -> (r: (String, String))
    ensures
        r.0@ == dir_of(p@),
        r.1@ == base_of(p@),
{
    let len: usize = p.unicode_len();
    let mut i: usize = len;
    while i > 0
        invariant
            i <= len,
            len == p@.len(),
            forall|j: int| i <= j < len ==> p@[j] != '/',
        decreases i,
    {
        if p.get_char(i - 1) == '/' {
            proof {
                lemma_last_slash_at(p@, i - 1);
            }
            let dir = String::from_str(p.substring_char(0, i));
            let base = String::from_str(p.substring_char(i, len));
            return (dir, base);
        }
        i = i - 1;
    }
    proof {
        lemma_last_slash(p@);
        if last_slash(p@) >= 0 {
            assert(p@[last_slash(p@)] == '/');
        }
        assert(dir_of(p@) =~= Seq::<char>::empty());
        assert(base_of(p@) =~= p@);
    }
    (String::new(), String::from_str(p))
}

proof fn lemma_last_slash_at(s: Seq<char>, k: int)
    requires
        0 <= k < s.len(),
        s[k] == '/',
        forall|j: int| k < j < s.len() ==> s[j] != '/',
    ensures
        last_slash(s) == k,
    decreases s.len(),
{
    if s.len() > 0 && s.last() != '/' {
        assert(k < s.len() - 1);
        lemma_last_slash_at(s.drop_last(), k);
    }
}

/// Rows grouped by calendar day, in first-appearance order; rows whose
/// date label is too short to carry a day are dropped.
pub open spec fn group_rows_spec(
    acc: Seq<(Seq<char>, Seq<StoredRowV>)>,
    rows: Seq<StoredRowV>,
) -> Seq<(Seq<char>, Seq<StoredRowV>)>
    decreases rows.len(),
{
    if rows.len() == 0 {
        acc
    } else {
        let r = rows[0];
        let acc1 = if r.date.len() < 10 {
            acc
        } else {
            let label = r.date.subrange(0, 10);
            let j = assoc_first(acc, label);
            if j < 0 {
                acc.push((label, seq![r]))
            } else {
                acc.update(j, (label, acc[j].1.push(r)))
            }
        };
        group_rows_spec(acc1, rows.drop_first())
    }
}

/// Views of a grouped row vector.
pub open spec fn group_views(s: Seq<(String, Vec<StoredRow>)>) -> Seq<
    (Seq<char>, Seq<StoredRowV>),
> {
    s.map_values(|p: (String, Vec<StoredRow>)| (p.0@, views_of(p.1@)))
}

/// Groups rows by their calendar-day prefix, keeping each day's rows in
/// input order.
pub fn group_rows_by_day(rows: Vec<StoredRow>) -> (r: Vec<(String, Vec<StoredRow>)>)
    ensures
        group_views(r@) == group_rows_spec(Seq::empty(), views_of(rows@)),
{
    let ghost all = views_of(rows@);
    let mut rest = rows;
    let mut acc: Vec<(String, Vec<StoredRow>)> = Vec::new();
    proof {
        assert(group_views(acc@) =~= Seq::<(Seq<char>, Seq<StoredRowV>)>::empty());
        assert(views_of(rest@) == all);
    }
    while rest.len() > 0
        invariant
            group_rows_spec(group_views(acc@), views_of(rest@)) == group_rows_spec(
                Seq::empty(),
                all,
            ),
        decreases rest@.len(),
    {
        let ghost pre_groups = group_views(acc@);
        let ghost pre_rest = views_of(rest@);
        let row = rest.remove(0);
        proof {
            assert(row@ == pre_rest[0]);
            assert(views_of(rest@) =~= pre_rest.drop_first());
        }
        let len: usize = row.date.as_str().unicode_len();
        if len >= 10 {
            let label = String::from_str(row.date.as_str().substring_char(0, 10));
            let ghost lv = row@.date.subrange(0, 10);
            proof {
                assert(label@ == lv);
                lemma_assoc_first(pre_groups, lv);
            }
            let mut j: usize = 0;
            let mut found: bool = false;
            while j < acc.len()
                invariant
                    label@ == lv,
                    group_views(acc@) == pre_groups,
                    j <= acc@.len(),
                    found ==> j < acc@.len() && pre_groups[j as int].0 == lv,
                    forall|x: int| 0 <= x < j ==> (#[trigger] pre_groups[x]).0 != lv,
                ensures
                    group_views(acc@) == pre_groups,
                    found ==> j < acc@.len() && pre_groups[j as int].0 == lv,
                    forall|x: int| 0 <= x < j ==> (#[trigger] pre_groups[x]).0 != lv,
                    !found ==> forall|x: int|
                        0 <= x < acc@.len() ==> (#[trigger] pre_groups[x]).0 != lv,
                decreases acc@.len() - j,
            {
                if str_eq(acc[j].0.as_str(), label.as_str()) {
                    found = true;
                    proof {
                        assert(pre_groups[j as int].0 == acc@[j as int].0@);
                    }
                    break ;
                }
                proof {
                    assert(pre_groups[j as int].0 == acc@[j as int].0@);
                }
                j = j + 1;
            }
            proof {
                lemma_assoc_first(pre_groups, lv);
                let ja = assoc_first(pre_groups, lv);
                if found {
                    assert(ja == j) by {
                        if ja < j {
                            assert(pre_groups[ja].0 != lv);
                        }
                        if ja > j || ja < 0 {
                            assert(pre_groups[j as int].0 == lv);
                        }
                    }
                } else {
                    assert(ja < 0) by {
                        if ja >= 0 {
                            assert(pre_groups[ja].0 == lv);
                        }
                    }
                }
            }
            if found {
                let mut entry = acc.remove(j);
                let ghost pre_entry_rows = views_of(entry.1@);
                entry.1.push(row);
                proof {
                    assert(views_of(entry.1@) =~= pre_entry_rows.push(pre_rest[0]));
                }
                acc.insert(j, entry);
                proof {
                    let target = pre_groups.update(
                        j as int,
                        (lv, pre_groups[j as int].1.push(pre_rest[0])),
                    );
                    let g = |p: (String, Vec<StoredRow>)| (p.0@, views_of(p.1@));
                    assert(acc@.len() == pre_groups.len());
                    assert forall|x: int| 0 <= x < pre_groups.len() implies g(#[trigger] acc@[x])
                        == target[x] by {
                        if x != j {
                            assert(g(acc@[x]) == pre_groups[x]);
                        } else {
                            assert(g(acc@[j as int]) == (entry.0@, views_of(entry.1@)));
                            assert(entry.0@ == lv);
                            assert(pre_entry_rows == pre_groups[j as int].1);
                        }
                    }
                    assert(group_views(acc@) =~= target);
                }
            } else {
                let mut day_rows: Vec<StoredRow> = Vec::new();
                day_rows.push(row);
                proof {
                    assert(views_of(day_rows@) =~= seq![pre_rest[0]]);
                }
                acc.push((label, day_rows));
                proof {
                    assert(group_views(acc@) =~= pre_groups.push((lv, seq![pre_rest[0]])));
                }
            }
        }
        proof {
            assert(group_rows_spec(pre_groups, pre_rest) == group_rows_spec(
                group_views(acc@),
                views_of(rest@),
            ));
        }
    }
    proof {
        assert(views_of(rest@).len() == 0);
        assert(group_rows_spec(group_views(acc@), views_of(rest@)) == group_views(acc@));
    }
    acc
}

} // verus!

verus! {

/// A loaded or saved analytics payload: shortcut usage, the application
/// dictionary, the next free reference, and the compact event chunks.
pub struct StoredInputAnalytics {
    pub shortcut_usage: Vec<(String, crate::state::ShortcutUsageValue)>,
    pub app_dict: Vec<(u32, String)>,
    pub next_app_ref: u32,
    pub event_chunks: Vec<crate::state::InputEventChunk>,
}

/// Ghost image of a `StoredInputAnalytics`.
pub struct StoredInputAnalyticsV {
    pub shortcut_usage: Seq<(Seq<char>, crate::state::ShortcutUsageV)>,
    pub app_dict: Seq<(u32, Seq<char>)>,
    pub next_app_ref: u32,
    pub event_chunks: Seq<crate::state::InputEventChunkV>,
}

impl View for StoredInputAnalytics {
    type V = StoredInputAnalyticsV;

    open spec fn view(&self) -> StoredInputAnalyticsV {
        StoredInputAnalyticsV {
            shortcut_usage: crate::state::usage_views(self.shortcut_usage@),
            app_dict: self.app_dict@.map_values(|p: (u32, String)| (p.0, p.1@)),
            next_app_ref: self.next_app_ref,
            event_chunks: self.event_chunks@.map_values(
                |c: crate::state::InputEventChunk| c@,
            ),
        }
    }
}

/// One per-application counter merged in: sums clamp at the bound.
pub open spec fn upsert_app_count(
    into: Seq<(Seq<char>, u64)>,
    e: (Seq<char>, u64),
) -> Seq<(Seq<char>, u64)> {
    let j = assoc_first(into, e.0);
    if j < 0 {
        into.push(e)
    } else {
        into.update(j, (e.0, sat_add_u64(into[j].1, e.1)))
    }
}

/// A whole per-application table merged in, first entry first.
pub open spec fn merge_by_app_spec(
    into: Seq<(Seq<char>, u64)>,
    from: Seq<(Seq<char>, u64)>,
) -> Seq<(Seq<char>, u64)>
    decreases from.len(),
{
    if from.len() == 0 {
        into
    } else {
        merge_by_app_spec(upsert_app_count(into, from[0]), from.drop_first())
    }
}

/// One usage entry merged in: counts sum, per-application tables merge.
pub open spec fn merge_usage_entry_spec(
    into: Seq<(Seq<char>, crate::state::ShortcutUsageV)>,
    e: (Seq<char>, crate::state::ShortcutUsageV),
) -> Seq<(Seq<char>, crate::state::ShortcutUsageV)> {
    let j = assoc_first(into, e.0);
    if j < 0 {
        into.push(e)
    } else {
        into.update(
            j,
            (
                e.0,
                crate::state::ShortcutUsageV {
                    count: sat_add_u64(into[j].1.count, e.1.count),
                    by_app: merge_by_app_spec(into[j].1.by_app, e.1.by_app),
                },
            ),
        )
    }
}

/// A whole usage table merged in, first entry first.
pub open spec fn merge_usage_spec(
    into: Seq<(Seq<char>, crate::state::ShortcutUsageV)>,
    from: Seq<(Seq<char>, crate::state::ShortcutUsageV)>,
) -> Seq<(Seq<char>, crate::state::ShortcutUsageV)>
    decreases from.len(),
{
    if from.len() == 0 {
        into
    } else {
        merge_usage_spec(merge_usage_entry_spec(into, from[0]), from.drop_first())
    }
}

/// Dictionary entries merged in: an existing reference keeps its label.
pub open spec fn merge_dict_spec(
    into: Seq<(u32, Seq<char>)>,
    from: Seq<(u32, Seq<char>)>,
) -> Seq<(u32, Seq<char>)>
    decreases from.len(),
{
    if from.len() == 0 {
        into
    } else {
        let j = assoc_first(into, from[0].0);
        let into1 = if j < 0 {
            into.push(from[0])
        } else {
            into
        };
        merge_dict_spec(into1, from.drop_first())
    }
}

/// Two analytics payloads merged: usage counters sum, the dictionary
/// keeps the first label of each reference, the next reference is the
/// larger, and the chunk lists concatenate.
pub open spec fn merge_analytics_spec(
    into: StoredInputAnalyticsV,
    from: StoredInputAnalyticsV,
) -> StoredInputAnalyticsV {
    StoredInputAnalyticsV {
        shortcut_usage: merge_usage_spec(into.shortcut_usage, from.shortcut_usage),
        app_dict: merge_dict_spec(into.app_dict, from.app_dict),
        next_app_ref: if into.next_app_ref >= from.next_app_ref {
            into.next_app_ref
        } else {
            from.next_app_ref
        },
        event_chunks: into.event_chunks + from.event_chunks,
    }
}

proof fn lemma_upsert_app_count_distinct(into: Seq<(Seq<char>, u64)>, e: (Seq<char>, u64))
    requires
        distinct_keys(into),
    ensures
        distinct_keys(upsert_app_count(into, e)),
{
    lemma_assoc_first(into, e.0);
    let j = assoc_first(into, e.0);
    let nb = upsert_app_count(into, e);
    if j < 0 {
        assert forall|x: int, y: int| #![trigger nb[x], nb[y]] 0 <= x < y < nb.len() implies nb[x].0
            != nb[y].0 by {
            if y == nb.len() - 1 {
                assert(into[x].0 != e.0);
            } else {
                assert(into[x].0 != into[y].0);
            }
        }
    } else {
        assert forall|x: int, y: int| #![trigger nb[x], nb[y]] 0 <= x < y < nb.len() implies nb[x].0
            != nb[y].0 by {
            assert(into[x].0 != into[y].0);
        }
    }
}

proof fn lemma_merge_by_app_distinct(into: Seq<(Seq<char>, u64)>, from: Seq<(Seq<char>, u64)>)
    requires
        distinct_keys(into),
    ensures
        distinct_keys(merge_by_app_spec(into, from)),
    decreases from.len(),
{
    if from.len() > 0 {
        lemma_upsert_app_count_distinct(into, from[0]);
        lemma_merge_by_app_distinct(upsert_app_count(into, from[0]), from.drop_first());
    }
}

/// Adds one per-application counter pair into a table.
fn upsert_app_pair(into: &mut Vec<(String, u64)>, app: String, n: u64)
    ensures
        final(into)@.map_values(|p: (String, u64)| (p.0@, p.1)) == upsert_app_count(
            old(into)@.map_values(|p: (String, u64)| (p.0@, p.1)),
            (app@, n),
        ),
{
    let ghost f = |p: (String, u64)| (p.0@, p.1);
    let ghost pre = into@.map_values(f);
    let mut k: usize = 0;
    let mut found: bool = false;
    while k < into.len()
        invariant
            f == (|p: (String, u64)| (p.0@, p.1)),
            into == old(into),
            pre == into@.map_values(f),
            k <= into@.len(),
            found ==> k < into@.len() && pre[k as int].0 == app@,
            forall|x: int| 0 <= x < k ==> (#[trigger] pre[x]).0 != app@,
        ensures
            into == old(into),
            pre == into@.map_values(f),
            found ==> k < into@.len() && pre[k as int].0 == app@,
            forall|x: int| 0 <= x < k ==> (#[trigger] pre[x]).0 != app@,
            !found ==> forall|x: int| 0 <= x < into@.len() ==> (#[trigger] pre[x]).0 != app@,
        decreases into@.len() - k,
    {
        if str_eq(into[k].0.as_str(), app.as_str()) {
            found = true;
            proof {
                assert(pre[k as int].0 == into@[k as int].0@);
            }
            break ;
        }
        proof {
            assert(pre[k as int].0 == into@[k as int].0@);
        }
        k = k + 1;
    }
    proof {
        lemma_assoc_first(pre, app@);
        let j = assoc_first(pre, app@);
        if found {
            assert(j == k) by {
                if j < k {
                    assert(pre[j].0 != app@);
                }
                if j > k || j < 0 {
                    assert(pre[k as int].0 == app@);
                }
            }
        } else {
            assert(j < 0) by {
                if j >= 0 {
                    assert(pre[j].0 == app@);
                }
            }
        }
    }
    if found {
        let pair = into.remove(k);
        let merged = saturating_add_u64(pair.1, n);
        into.insert(k, (pair.0, merged));
        proof {
            let target = upsert_app_count(pre, (app@, n));
            assert(into@.len() == old(into)@.len());
            assert forall|x: int| 0 <= x < into@.len() implies f(#[trigger] into@[x])
                == target[x] by {
                if x != k {
                    assert(into@[x] == old(into)@[x]);
                    assert(f(old(into)@[x]) == pre[x]);
                } else {
                    assert(f(old(into)@[k as int]) == pre[k as int]);
                }
            }
            assert(into@.map_values(f) =~= target);
        }
    } else {
        into.push((app, n));
        proof {
            assert(into@.map_values(f) =~= upsert_app_count(pre, (app@, n)));
        }
    }
}

/// Merges one per-application table into another in place.
fn merge_by_app_into(into: &mut Vec<(String, u64)>, from: Vec<(String, u64)>)
    ensures
        final(into)@.map_values(|p: (String, u64)| (p.0@, p.1)) == merge_by_app_spec(
            old(into)@.map_values(|p: (String, u64)| (p.0@, p.1)),
            from@.map_values(|p: (String, u64)| (p.0@, p.1)),
        ),
{
    let ghost f = |p: (String, u64)| (p.0@, p.1);
    let ghost target = merge_by_app_spec(into@.map_values(f), from@.map_values(f));
    let mut rest = from;
    while rest.len() > 0
        invariant
            f == (|p: (String, u64)| (p.0@, p.1)),
            merge_by_app_spec(into@.map_values(f), rest@.map_values(f)) == target,
        decreases rest@.len(),
    {
        let ghost pre = into@.map_values(f);
        let ghost pre_rest = rest@.map_values(f);
        let e = rest.remove(0);
        proof {
            assert(rest@.map_values(f) =~= pre_rest.drop_first());
            assert(f(e) == pre_rest[0]);
        }
        upsert_app_pair(into, e.0, e.1);
        proof {
            assert(into@.map_values(f) == upsert_app_count(pre, pre_rest[0]));
        }
    }
    proof {
        assert(rest@.map_values(f).len() == 0);
    }
}

} // verus!

verus! {

/// Merges one usage entry into a usage table in place.
fn merge_usage_entry_into(
    into: &mut Vec<(String, crate::state::ShortcutUsageValue)>,
    entry: (String, crate::state::ShortcutUsageValue),
)
    ensures
        crate::state::usage_views(final(into)@) == merge_usage_entry_spec(
            crate::state::usage_views(old(into)@),
            (entry.0@, entry.1@),
        ),
{
    let ghost pre = crate::state::usage_views(into@);
    let ghost ev = (entry.0@, entry.1@);
    let mut k: usize = 0;
    let mut found: bool = false;
    while k < into.len()
        invariant
            into == old(into),
            pre == crate::state::usage_views(into@),
            k <= into@.len(),
            found ==> k < into@.len() && pre[k as int].0 == entry.0@,
            forall|x: int| 0 <= x < k ==> (#[trigger] pre[x]).0 != entry.0@,
        ensures
            into == old(into),
            pre == crate::state::usage_views(into@),
            found ==> k < into@.len() && pre[k as int].0 == entry.0@,
            forall|x: int| 0 <= x < k ==> (#[trigger] pre[x]).0 != entry.0@,
            !found ==> forall|x: int| 0 <= x < into@.len() ==> (#[trigger] pre[x]).0 != entry.0@,
        decreases into@.len() - k,
    {
        if str_eq(into[k].0.as_str(), entry.0.as_str()) {
            found = true;
            proof {
                assert(pre[k as int].0 == into@[k as int].0@);
            }
            break ;
        }
        proof {
            assert(pre[k as int].0 == into@[k as int].0@);
        }
        k = k + 1;
    }
    proof {
        lemma_assoc_first(pre, entry.0@);
        let j = assoc_first(pre, entry.0@);
        if found {
            assert(j == k) by {
                if j < k {
                    assert(pre[j].0 != entry.0@);
                }
                if j > k || j < 0 {
                    assert(pre[k as int].0 == entry.0@);
                }
            }
        } else {
            assert(j < 0) by {
                if j >= 0 {
                    assert(pre[j].0 == entry.0@);
                }
            }
        }
    }
    if found {
        let mut existing = into.remove(k);
        let ghost pre_count = existing.1.count;
        let ghost pre_by_app = existing.1.by_app@.map_values(|p: (String, u64)| (p.0@, p.1));
        proof {
            let g = |p: (String, crate::state::ShortcutUsageValue)| (p.0@, p.1@);
            assert(g(old(into)@[k as int]) == pre[k as int]);
            assert(pre_count == pre[k as int].1.count);
            assert(pre_by_app == pre[k as int].1.by_app);
        }
        existing.1.count = saturating_add_u64(existing.1.count, entry.1.count);
        merge_by_app_into(&mut existing.1.by_app, entry.1.by_app);
        into.insert(k, (existing.0, existing.1));
        proof {
            let g = |p: (String, crate::state::ShortcutUsageValue)| (p.0@, p.1@);
            let target = merge_usage_entry_spec(pre, ev);
            assert(into@.len() == old(into)@.len());
            assert forall|x: int| 0 <= x < into@.len() implies g(#[trigger] into@[x])
                == target[x] by {
                if x != k {
                    assert(into@[x] == old(into)@[x]);
                    assert(g(old(into)@[x]) == pre[x]);
                }
            }
            assert(crate::state::usage_views(into@) =~= target);
        }
    } else {
        into.push(entry);
        proof {
            assert(crate::state::usage_views(into@) =~= merge_usage_entry_spec(pre, ev));
        }
    }
}

/// Merges a loaded analytics payload into an accumulator: usage counters
/// sum, the dictionary keeps the first label seen for each reference, the
/// next free reference is the larger of the two, and chunks concatenate.
pub fn merge_analytics(into: &mut StoredInputAnalytics, from: StoredInputAnalytics)
    ensures
        final(into)@ == merge_analytics_spec(old(into)@, from@),
{
    let ghost target_usage = merge_usage_spec(into@.shortcut_usage, from@.shortcut_usage);
    let mut rest = from.shortcut_usage;
    while rest.len() > 0
        invariant
            merge_usage_spec(
                crate::state::usage_views(into.shortcut_usage@),
                crate::state::usage_views(rest@),
            ) == target_usage,
            into.app_dict == old(into).app_dict,
            into.next_app_ref == old(into).next_app_ref,
            into.event_chunks == old(into).event_chunks,
        decreases rest@.len(),
    {
        let ghost pre = crate::state::usage_views(into.shortcut_usage@);
        let ghost pre_rest = crate::state::usage_views(rest@);
        let e = rest.remove(0);
        proof {
            assert(crate::state::usage_views(rest@) =~= pre_rest.drop_first());
            assert((e.0@, e.1@) == pre_rest[0]);
        }
        merge_usage_entry_into(&mut into.shortcut_usage, e);
        proof {
            assert(crate::state::usage_views(into.shortcut_usage@) == merge_usage_entry_spec(
                pre,
                pre_rest[0],
            ));
        }
    }
    proof {
        assert(crate::state::usage_views(rest@).len() == 0);
        assert(crate::state::usage_views(into.shortcut_usage@) == target_usage);
    }
    let ghost target_dict = merge_dict_spec(into@.app_dict, from@.app_dict);
    let ghost dictf = |p: (u32, String)| (p.0, p.1@);
    let mut drest = from.app_dict;
    while drest.len() > 0
        invariant
            dictf == (|p: (u32, String)| (p.0, p.1@)),
            merge_dict_spec(into.app_dict@.map_values(dictf), drest@.map_values(dictf))
                == target_dict,
            crate::state::usage_views(into.shortcut_usage@) == target_usage,
            into.next_app_ref == old(into).next_app_ref,
            into.event_chunks == old(into).event_chunks,
        decreases drest@.len(),
    {
        let ghost pre = into.app_dict@.map_values(dictf);
        let ghost pre_rest = drest@.map_values(dictf);
        let e = drest.remove(0);
        proof {
            assert(drest@.map_values(dictf) =~= pre_rest.drop_first());
            assert(dictf(e) == pre_rest[0]);
        }
        let mut k: usize = 0;
        let mut found: bool = false;
        while k < into.app_dict.len()
            invariant
                dictf == (|p: (u32, String)| (p.0, p.1@)),
                pre == into.app_dict@.map_values(dictf),
                k <= into.app_dict@.len(),
                found ==> k < into.app_dict@.len() && pre[k as int].0 == e.0,
                forall|x: int| 0 <= x < k ==> (#[trigger] pre[x]).0 != e.0,
            ensures
                pre == into.app_dict@.map_values(dictf),
                found ==> k < into.app_dict@.len() && pre[k as int].0 == e.0,
                forall|x: int| 0 <= x < k ==> (#[trigger] pre[x]).0 != e.0,
                !found ==> forall|x: int|
                    0 <= x < into.app_dict@.len() ==> (#[trigger] pre[x]).0 != e.0,
            decreases into.app_dict@.len() - k,
        {
            if into.app_dict[k].0 == e.0 {
                found = true;
                proof {
                    assert(pre[k as int].0 == into.app_dict@[k as int].0);
                }
                break ;
            }
            proof {
                assert(pre[k as int].0 == into.app_dict@[k as int].0);
            }
            k = k + 1;
        }
        proof {
            lemma_assoc_first(pre, e.0);
            let j = assoc_first(pre, e.0);
            if found {
                assert(j >= 0) by {
                    if j < 0 {
                        assert(pre[k as int].0 != e.0);
                    }
                }
            } else {
                assert(j < 0) by {
                    if j >= 0 {
                        assert(pre[j].0 == e.0);
                    }
                }
            }
        }
        if !found {
            into.app_dict.push(e);
            proof {
                assert(into.app_dict@.map_values(dictf) =~= pre.push(pre_rest[0]));
            }
        }
    }
    proof {
        assert(drest@.map_values(dictf).len() == 0);
        assert(into.app_dict@.map_values(dictf) == target_dict);
    }
    if from.next_app_ref > into.next_app_ref {
        into.next_app_ref = from.next_app_ref;
    }
    let ghost chunkf = |c: crate::state::InputEventChunk| c@;
    let ghost target_chunks = into@.event_chunks + from@.event_chunks;
    let mut crest = from.event_chunks;
    while crest.len() > 0
        invariant
            chunkf == (|c: crate::state::InputEventChunk| c@),
            into.event_chunks@.map_values(chunkf) + crest@.map_values(chunkf) == target_chunks,
            crate::state::usage_views(into.shortcut_usage@) == target_usage,
            into.app_dict@.map_values(|p: (u32, String)| (p.0, p.1@)) == target_dict,
            into.next_app_ref == if old(into).next_app_ref >= from.next_app_ref {
                old(into)@.next_app_ref
            } else {
                from@.next_app_ref
            },
        decreases crest@.len(),
    {
        let ghost pre = into.event_chunks@.map_values(chunkf);
        let ghost pre_rest = crest@.map_values(chunkf);
        let c = crest.remove(0);
        proof {
            assert(crest@.map_values(chunkf) =~= pre_rest.drop_first());
            assert(chunkf(c) == pre_rest[0]);
        }
        into.event_chunks.push(c);
        proof {
            assert(into.event_chunks@.map_values(chunkf) =~= pre.push(pre_rest[0]));
            assert(pre.push(pre_rest[0]) + pre_rest.drop_first() =~= pre + pre_rest);
        }
    }
    proof {
        assert(crest@.map_values(chunkf).len() == 0);
        assert(into.event_chunks@.map_values(chunkf) + crest@.map_values(chunkf)
            =~= into.event_chunks@.map_values(chunkf));
    }
}

} // verus!

verus! {

/// The state with any open chunk closed into the ring.
pub open spec fn close_open_spec(s: CollectorStateV) -> CollectorStateV {
    match s.open_event_chunk {
        Some(o) => crate::shortcut::push_chunk_spec(
            CollectorStateV { open_event_chunk: None, ..s },
            o,
        ),
        None => s,
    }
}

/// Copies a usage table, keeping every view.
pub fn clone_usage_vec(v: &Vec<(String, crate::state::ShortcutUsageValue)>) -> (r: Vec<
    (String, crate::state::ShortcutUsageValue),
>)
    ensures
        crate::state::usage_views(r@) == crate::state::usage_views(v@),
{
    let mut out: Vec<(String, crate::state::ShortcutUsageValue)> = Vec::new();
    let mut i: usize = 0;
    proof {
        assert(crate::state::usage_views(out@) =~= crate::state::usage_views(
            v@.subrange(0, 0),
        ));
    }
    while i < v.len()
        invariant
            i <= v@.len(),
            crate::state::usage_views(out@) == crate::state::usage_views(
                v@.subrange(0, i as int),
            ),
        decreases v@.len() - i,
    {
        let ghost pre = crate::state::usage_views(out@);
        out.push((v[i].0.clone(), v[i].1.clone()));
        proof {
            assert(pre.len() == i) by {
                assert(crate::state::usage_views(v@.subrange(0, i as int)).len() == i);
            }
            let g = |p: (String, crate::state::ShortcutUsageValue)| (p.0@, p.1@);
            assert forall|k: int| 0 <= k < i + 1 implies crate::state::usage_views(out@)[k]
                == crate::state::usage_views(v@.subrange(0, i + 1))[k] by {
                if k < i {
                    assert(pre[k] == crate::state::usage_views(v@.subrange(0, i as int))[k]);
                }
            }
            assert(crate::state::usage_views(out@) =~= crate::state::usage_views(
                v@.subrange(0, i + 1),
            ));
        }
        i = i + 1;
    }
    proof {
        assert(v@.subrange(0, v@.len() as int) =~= v@);
    }
    out
}

/// Copies an application dictionary, keeping every view.
pub fn clone_dict_vec(v: &Vec<(u32, String)>) -> (r: Vec<(u32, String)>)
    ensures
        r@.map_values(|p: (u32, String)| (p.0, p.1@)) == v@.map_values(
            |p: (u32, String)| (p.0, p.1@),
        ),
{
    let ghost f = |p: (u32, String)| (p.0, p.1@);
    let mut out: Vec<(u32, String)> = Vec::new();
    let mut i: usize = 0;
    proof {
        assert(out@.map_values(f) =~= v@.subrange(0, 0).map_values(f));
    }
    while i < v.len()
        invariant
            f == (|p: (u32, String)| (p.0, p.1@)),
            i <= v@.len(),
            out@.map_values(f) == v@.subrange(0, i as int).map_values(f),
        decreases v@.len() - i,
    {
        let ghost pre = out@.map_values(f);
        out.push((v[i].0, v[i].1.clone()));
        proof {
            assert(pre.len() == i) by {
                assert(v@.subrange(0, i as int).map_values(f).len() == i);
            }
            assert forall|k: int| 0 <= k < i + 1 implies out@.map_values(f)[k] == v@.subrange(
                0,
                i + 1,
            ).map_values(f)[k] by {
                if k < i {
                    assert(pre[k] == v@.subrange(0, i as int).map_values(f)[k]);
                }
            }
            assert(out@.map_values(f) =~= v@.subrange(0, i + 1).map_values(f));
        }
        i = i + 1;
    }
    proof {
        assert(v@.subrange(0, v@.len() as int) =~= v@);
    }
    out
}

/// Copies a chunk list, keeping every view.
pub fn clone_chunks_vec(v: &Vec<crate::state::InputEventChunk>) -> (r: Vec<
    crate::state::InputEventChunk,
>)
    ensures
        r@.map_values(|c: crate::state::InputEventChunk| c@) == v@.map_values(
            |c: crate::state::InputEventChunk| c@,
        ),
{
    let ghost f = |c: crate::state::InputEventChunk| c@;
    let mut out: Vec<crate::state::InputEventChunk> = Vec::new();
    let mut i: usize = 0;
    proof {
        assert(out@.map_values(f) =~= v@.subrange(0, 0).map_values(f));
    }
    while i < v.len()
        invariant
            f == (|c: crate::state::InputEventChunk| c@),
            i <= v@.len(),
            out@.map_values(f) == v@.subrange(0, i as int).map_values(f),
        decreases v@.len() - i,
    {
        let ghost pre = out@.map_values(f);
        out.push(v[i].clone());
        proof {
            assert(pre.len() == i) by {
                assert(v@.subrange(0, i as int).map_values(f).len() == i);
            }
            assert forall|k: int| 0 <= k < i + 1 implies out@.map_values(f)[k] == v@.subrange(
                0,
                i + 1,
            ).map_values(f)[k] by {
                if k < i {
                    assert(pre[k] == v@.subrange(0, i as int).map_values(f)[k]);
                }
            }
            assert(out@.map_values(f) =~= v@.subrange(0, i + 1).map_values(f));
        }
        i = i + 1;
    }
    proof {
        assert(v@.subrange(0, v@.len() as int) =~= v@);
    }
    out
}

/// Closes any open chunk, then copies the analytics aggregates into a
/// persistable payload.
pub fn build_stored_input_analytics(state: &mut CollectorState) -> (r: StoredInputAnalytics)
    requires
        old(state).wf(),
    ensures
        final(state).wf(),
        final(state)@ == close_open_spec(old(state)@),
        r@.shortcut_usage == final(state)@.shortcut_usage,
        r@.app_dict == final(state)@.app_dict,
        r@.next_app_ref == final(state)@.next_app_ref,
        r@.event_chunks == final(state)@.event_chunks,
{
    let taken = state.open_event_chunk.take();
    match taken {
        Some(chunk) => {
            proof {
                assert(state@ == (CollectorStateV { open_event_chunk: None, ..old(state)@ }));
            }
            crate::shortcut::push_finished_chunk(state, chunk);
        },
        None => {},
    }
    let shortcut_usage = clone_usage_vec(&state.shortcut_usage);
    let app_dict = clone_dict_vec(&state.app_dict);
    let event_chunks = clone_chunks_vec(&state.event_chunks);
    StoredInputAnalytics {
        shortcut_usage,
        app_dict,
        next_app_ref: state.next_app_ref,
        event_chunks,
    }
}

} // verus!

verus! {

/// Whether a label already occurs in a dictionary.
pub open spec fn dict_has_label(d: Seq<(u32, Seq<char>)>, label: Seq<char>) -> bool {
    exists|i: int| 0 <= i < d.len() && d[i].1 == label
}

/// A loaded dictionary reduced to usable entries: the first entry of each
/// reference and of each label wins, and the last representable reference
/// is left out so a fresh reference always exists above every kept one.
pub open spec fn sanitize_dict(
    acc: Seq<(u32, Seq<char>)>,
    rest: Seq<(u32, Seq<char>)>,
) -> Seq<(u32, Seq<char>)>
    decreases rest.len(),
{
    if rest.len() == 0 {
        acc
    } else {
        let e = rest[0];
        let keep = e.0 != u32::MAX && assoc_first(acc, e.0) < 0 && !dict_has_label(acc, e.1);
        sanitize_dict(
            if keep {
                acc.push(e)
            } else {
                acc
            },
            rest.drop_first(),
        )
    }
}

/// The next free reference over a dictionary: one above the largest kept
/// reference, at least the given base.
pub open spec fn next_ref_of(d: Seq<(u32, Seq<char>)>, base: u32) -> u32
    decreases d.len(),
{
    if d.len() == 0 {
        base
    } else {
        let prev = next_ref_of(d.drop_last(), base);
        if d.last().0 >= prev && d.last().0 < u32::MAX {
            (d.last().0 + 1) as u32
        } else {
            prev
        }
    }
}

/// The chunk ring capped at its retention bound, oldest chunks dropped.
pub open spec fn cap_chunks(
    c: Seq<crate::state::InputEventChunkV>,
) -> Seq<crate::state::InputEventChunkV> {
    if c.len() > 20000 {
        c.skip(c.len() - 20000)
    } else {
        c
    }
}

/// Builds the collector state from configuration and the loaded
/// persistence payloads. The shortcut aggregate is rebuilt from the
/// chunks when the loaded aggregate is empty but chunks exist.
#[verifier::rlimit(100)]
pub fn new_collector_state(
    log_path: String,
    app_log_path: String,
    config: &crate::config::AppConfig,
    loaded_rows: Vec<StoredRow>,
    analytics: StoredInputAnalytics,
) -> (r: CollectorState)
    requires
        crate::state::usage_wf(analytics@.shortcut_usage),
    ensures
        r.wf(),
        r@.stats == rows_to_stats_spec(views_of(loaded_rows@)),
        r@.last_typing_at_ms is None,
        r@.collector_tick_interval_ms == crate::config::interval_ms_of_secs(
            config.collector_tick_interval_secs,
        ),
        r@.flush_interval_ms == crate::config::interval_ms_of_secs(config.flush_interval_secs),
        r@.session_gap_ms == crate::config::interval_ms_of_secs(config.session_gap_secs),
        !r@.paused && !r@.auto_paused && r@.auto_pause_reason is None,
        r@.keyboard_active,
        r@.ignore_key_combos == config.ignore_key_combos,
        r@.menu_bar_display_mode == config.menu_bar_display_mode,
        r@.excluded_bundle_ids == views_of(config.excluded_bundle_ids@).map_values(
            |t: Seq<char>| crate::text::lower_seq(t),
        ),
        !r@.one_password_suggestion_pending,
        r@.last_error is None,
        r@.pressed_non_modifier_keys.len() == 0,
        r@.active_stats_key is None,
        r@.app_dict == sanitize_dict(Seq::empty(), analytics@.app_dict),
        r@.next_app_ref == next_ref_of(
            r@.app_dict,
            if analytics@.next_app_ref < 1 {
                1
            } else {
                analytics@.next_app_ref
            },
        ),
        r@.event_chunks == cap_chunks(analytics@.event_chunks),
        r@.open_event_chunk is None,
        r@.shortcut_require_cmd_or_ctrl == config.shortcut_require_cmd_or_ctrl,
        r@.shortcut_allow_alt_only == config.shortcut_allow_alt_only,
        r@.shortcut_min_modifiers == if config.shortcut_min_modifiers < 1 {
            1
        } else {
            config.shortcut_min_modifiers
        },
        r@.shortcut_allowlist == views_of(config.shortcut_allowlist@).map_values(
            |t: Seq<char>| crate::text::lower_seq(t),
        ),
        r@.shortcut_blocklist == views_of(config.shortcut_blocklist@).map_values(
            |t: Seq<char>| crate::text::lower_seq(t),
        ),
        r@.log_path == log_path@,
        r@.app_log_path == app_log_path@,
        r@.shortcut_usage == if analytics@.shortcut_usage.len() == 0 && cap_chunks(
            analytics@.event_chunks,
        ).len() > 0 {
            crate::shortcut::rebuild_usage_spec(
                CollectorStateV { shortcut_usage: Seq::empty(), ..r@ },
            )
        } else {
            analytics@.shortcut_usage
        },
{
    let stats = rows_to_stats(loaded_rows);
    let ghost dictf = |p: (u32, String)| (p.0, p.1@);
    let ghost dict_target = sanitize_dict(Seq::empty(), analytics@.app_dict);
    let mut app_dict: Vec<(u32, String)> = Vec::new();
    let mut app_ref_by_app: Vec<(String, u32)> = Vec::new();
    let mut next_app_ref: u32 = if analytics.next_app_ref < 1 {
        1
    } else {
        analytics.next_app_ref
    };
    let ghost base: u32 = next_app_ref;
    let mut drest = analytics.app_dict;
    proof {
        assert(app_dict@.map_values(dictf) =~= Seq::<(u32, Seq<char>)>::empty());
        assert(app_ref_by_app@.map_values(|p: (String, u32)| (p.0@, p.1)) =~= Seq::<
            (Seq<char>, u32),
        >::empty());
    }
    while drest.len() > 0
        invariant
            dictf == (|p: (u32, String)| (p.0, p.1@)),
            sanitize_dict(app_dict@.map_values(dictf), drest@.map_values(dictf)) == dict_target,
            next_app_ref == next_ref_of(app_dict@.map_values(dictf), base),
            app_ref_by_app@.len() == app_dict@.len(),
            forall|i: int| #![trigger app_ref_by_app@[i]]
                0 <= i < app_dict@.len() ==> app_ref_by_app@[i].0@ == app_dict@[i].1@
                    && app_ref_by_app@[i].1 == app_dict@[i].0,
            crate::state::distinct_keys(app_dict@.map_values(dictf)),
            forall|x: int, y: int| #![trigger app_ref_by_app@[x], app_ref_by_app@[y]]
                0 <= x < y < app_ref_by_app@.len() ==> app_ref_by_app@[x].0@
                    != app_ref_by_app@[y].0@,
            forall|i: int|
                0 <= i < app_dict@.len() ==> (#[trigger] app_dict@.map_values(dictf)[i]).0
                    < next_app_ref,
            next_app_ref >= 1,
        decreases drest@.len(),
    {
        let ghost pre_dict = app_dict@.map_values(dictf);
        let ghost pre_rest = drest@.map_values(dictf);
        let e = drest.remove(0);
        proof {
            assert(drest@.map_values(dictf) =~= pre_rest.drop_first());
            assert(dictf(e) == pre_rest[0]);
        }
        let mut seen: bool = e.0 == u32::MAX;
        let mut k: usize = 0;
        if !seen {
            while k < app_dict.len()
                invariant
                    dictf == (|p: (u32, String)| (p.0, p.1@)),
                    pre_dict == app_dict@.map_values(dictf),
                    k <= app_dict@.len(),
                    app_dict@.len() == app_ref_by_app@.len(),
                    e.0 != u32::MAX,
                    !seen ==> forall|x: int|
                        0 <= x < k ==> (#[trigger] pre_dict[x]).0 != e.0 && pre_dict[x].1 != e.1@,
                    seen ==> exists|x: int|
                        0 <= x < app_dict@.len() && ((#[trigger] pre_dict[x]).0 == e.0
                            || pre_dict[x].1 == e.1@),
                ensures
                    pre_dict == app_dict@.map_values(dictf),
                    !seen ==> forall|x: int|
                        0 <= x < app_dict@.len() ==> (#[trigger] pre_dict[x]).0 != e.0
                            && pre_dict[x].1 != e.1@,
                    seen ==> exists|x: int|
                        0 <= x < app_dict@.len() && ((#[trigger] pre_dict[x]).0 == e.0
                            || pre_dict[x].1 == e.1@),
                decreases app_dict@.len() - k,
            {
                if app_dict[k].0 == e.0 || str_eq(app_dict[k].1.as_str(), e.1.as_str()) {
                    seen = true;
                    proof {
                        assert(pre_dict[k as int].0 == app_dict@[k as int].0);
                        assert(pre_dict[k as int].1 == app_dict@[k as int].1@);
                    }
                    break ;
                }
                proof {
                    assert(pre_dict[k as int].0 == app_dict@[k as int].0);
                    assert(pre_dict[k as int].1 == app_dict@[k as int].1@);
                }
                k = k + 1;
            }
        }
        if !seen {
            proof {
                crate::state::lemma_assoc_first(pre_dict, e.0);
                assert(assoc_first(pre_dict, e.0) < 0) by {
                    if assoc_first(pre_dict, e.0) >= 0 {
                        assert(pre_dict[assoc_first(pre_dict, e.0)].0 == e.0);
                    }
                }
                assert(!dict_has_label(pre_dict, e.1@)) by {
                    if dict_has_label(pre_dict, e.1@) {
                        let x = choose|x: int|
                            0 <= x < pre_dict.len() && pre_dict[x].1 == e.1@;
                        assert(pre_dict[x].1 != e.1@);
                    }
                }
            }
            let label = e.1.clone();
            let ghost pre_next = next_app_ref;
            if e.0 >= next_app_ref {
                next_app_ref = e.0 + 1;
            }
            app_dict.push((e.0, e.1));
            app_ref_by_app.push((label, e.0));
            proof {
                let nd = app_dict@.map_values(dictf);
                assert(nd =~= pre_dict.push(pre_rest[0]));
                assert(nd.drop_last() =~= pre_dict);
                assert forall|x: int, y: int| #![trigger nd[x], nd[y]]
                    0 <= x < y < nd.len() implies nd[x].0 != nd[y].0 by {
                    if y == nd.len() - 1 {
                        assert(pre_dict[x].0 != e.0);
                    } else {
                        assert(pre_dict[x].0 != pre_dict[y].0);
                    }
                }
                assert(crate::state::distinct_keys(nd));
                assert forall|x: int, y: int| #![trigger app_ref_by_app@[x], app_ref_by_app@[y]]
                    0 <= x < y < app_ref_by_app@.len() implies app_ref_by_app@[x].0@
                    != app_ref_by_app@[y].0@ by {
                    if y == app_ref_by_app@.len() - 1 {
                        assert(pre_dict[x].1 == app_dict@[x].1@);
                        assert(pre_dict[x].1 != e.1@);
                    }
                }
                assert(sanitize_dict(pre_dict, pre_rest) == sanitize_dict(
                    app_dict@.map_values(dictf),
                    pre_rest.drop_first(),
                ));
            }
        } else {
            proof {
                crate::state::lemma_assoc_first(pre_dict, e.0);
                if e.0 != u32::MAX {
                    let x = choose|x: int|
                        0 <= x < pre_dict.len() && ((#[trigger] pre_dict[x]).0 == e.0
                            || pre_dict[x].1 == e.1@);
                    if pre_dict[x].0 == e.0 {
                        assert(assoc_first(pre_dict, e.0) >= 0) by {
                            if assoc_first(pre_dict, e.0) < 0 {
                                assert(pre_dict[x].0 != e.0);
                            }
                        }
                    } else {
                        assert(dict_has_label(pre_dict, e.1@));
                    }
                }
                assert(sanitize_dict(pre_dict, pre_rest) == sanitize_dict(
                    pre_dict,
                    pre_rest.drop_first(),
                ));
            }
        }
    }
    proof {
        assert(drest@.map_values(dictf).len() == 0);
        assert(app_dict@.map_values(dictf) == dict_target);
    }
    let mut event_chunks = analytics.event_chunks;
    let ghost chunkf = |c: crate::state::InputEventChunk| c@;
    let ghost grown = event_chunks@.map_values(chunkf);
    let ghost mut removed: int = 0;
    proof {
        assert(event_chunks@.map_values(chunkf) =~= grown.skip(0));
    }
    while event_chunks.len() > 20000
        invariant
            chunkf == (|c: crate::state::InputEventChunk| c@),
            0 <= removed <= grown.len(),
            event_chunks@.len() == grown.len() - removed,
            grown.len() > 20000 ==> event_chunks@.len() >= 20000,
            grown.len() <= 20000 ==> removed == 0,
            event_chunks@.map_values(chunkf) =~= grown.skip(removed),
        decreases event_chunks@.len(),
    {
        let ghost before = event_chunks@.map_values(chunkf);
        event_chunks.remove(0);
        proof {
            assert(event_chunks@.map_values(chunkf) =~= before.drop_first());
            removed = removed + 1;
            assert(event_chunks@.map_values(chunkf) =~= grown.skip(removed));
        }
    }
    proof {
        if grown.len() > 20000 {
            assert(event_chunks@.len() == 20000);
            assert(event_chunks@.map_values(chunkf) =~= grown.skip(grown.len() - 20000));
        } else {
            assert(event_chunks@.map_values(chunkf) =~= grown);
        }
    }
    let excluded_bundle_ids = lowercase_all(&config.excluded_bundle_ids);
    let shortcut_allowlist = lowercase_all(&config.shortcut_allowlist);
    let shortcut_blocklist = lowercase_all(&config.shortcut_blocklist);
    let mut state = CollectorState {
        stats,
        last_typing_at_ms: None,
        collector_tick_interval_ms: config.collector_tick_interval(),
        flush_interval_ms: config.flush_interval(),
        session_gap_ms: config.session_gap(),
        paused: false,
        auto_paused: false,
        auto_pause_reason: None,
        keyboard_active: true,
        ignore_key_combos: config.ignore_key_combos,
        menu_bar_display_mode: config.menu_bar_display_mode,
        excluded_bundle_ids,
        one_password_suggestion_pending: false,
        last_error: None,
        pressed_non_modifier_keys: Vec::new(),
        active_stats_key: None,
        shortcut_usage: analytics.shortcut_usage,
        app_dict,
        app_ref_by_app,
        next_app_ref,
        event_chunks,
        open_event_chunk: None,
        shortcut_require_cmd_or_ctrl: config.shortcut_require_cmd_or_ctrl,
        shortcut_allow_alt_only: config.shortcut_allow_alt_only,
        shortcut_min_modifiers: if config.shortcut_min_modifiers < 1 {
            1
        } else {
            config.shortcut_min_modifiers
        },
        shortcut_allowlist,
        shortcut_blocklist,
        log_path,
        app_log_path,
    };
    proof {
        assert(crate::sort::views_of(state.pressed_non_modifier_keys@) =~= Seq::<
            Seq<char>,
        >::empty());
        assert(crate::state::wf_state(state@));
    }
    if state.shortcut_usage.len() == 0 && state.event_chunks.len() > 0 {
        proof {
            assert(state@.shortcut_usage =~= Seq::<
                (Seq<char>, crate::state::ShortcutUsageV),
            >::empty());
        }
        crate::shortcut::rebuild_shortcut_usage_from_chunks(&mut state);
    }
    state
}

/// Each entry ASCII-lowercased, in order.
fn lowercase_all(list: &Vec<String>) -> (r: Vec<String>)
    ensures
        views_of(r@) == views_of(list@).map_values(|t: Seq<char>| crate::text::lower_seq(t)),
{
    let mut out: Vec<String> = Vec::new();
    let mut i: usize = 0;
    proof {
        assert(views_of(out@) =~= views_of(list@).subrange(0, 0).map_values(
            |t: Seq<char>| crate::text::lower_seq(t),
        ));
    }
    while i < list.len()
        invariant
            i <= list@.len(),
            views_of(out@) == views_of(list@).subrange(0, i as int).map_values(
                |t: Seq<char>| crate::text::lower_seq(t),
            ),
        decreases list@.len() - i,
    {
        let ghost pre = views_of(out@);
        out.push(crate::text::lowercase(list[i].as_str()));
        proof {
            assert(pre.len() == i) by {
                assert(views_of(list@).subrange(0, i as int).map_values(
                    |t: Seq<char>| crate::text::lower_seq(t),
                ).len() == i);
            }
            assert forall|k: int| 0 <= k < i + 1 implies views_of(out@)[k] == views_of(
                list@,
            ).subrange(0, i + 1).map_values(|t: Seq<char>| crate::text::lower_seq(t))[k] by {
                if k < i {
                    assert(pre[k] == views_of(list@).subrange(0, i as int).map_values(
                        |t: Seq<char>| crate::text::lower_seq(t),
                    )[k]);
                }
            }
            assert(views_of(out@) =~= views_of(list@).subrange(0, i + 1).map_values(
                |t: Seq<char>| crate::text::lower_seq(t),
            ));
        }
        i = i + 1;
    }
    proof {
        assert(views_of(list@).subrange(0, views_of(list@).len() as int) =~= views_of(list@));
    }
    out
}

} // verus!

verus! {

/// The day labels of a chunk list, one per chunk, resolved through the
/// local calendar; a chunk whose start lies outside the representable
/// range gets none. The labels depend on the machine's time zone, so only
/// their number is pinned.
pub fn chunk_day_labels(chunks: &Vec<crate::state::InputEventChunk>) -> (r: Vec<Option<String>>)
    ensures
        r@.len() == chunks@.len(),
{
    let mut labels: Vec<Option<String>> = Vec::new();
    let mut i: usize = 0;
    while i < chunks.len()
        invariant
            i <= chunks@.len(),
            labels@.len() == i,
        decreases chunks@.len() - i,
    {
        labels.push(crate::clock::local_date_of_ms(chunks[i].chunk_start_ms));
        i = i + 1;
    }
    labels
}

/// Chunks grouped under the given day labels, in first-appearance order;
/// a chunk without a label is dropped.
pub open spec fn group_chunks_spec(
    acc: Seq<(Seq<char>, Seq<crate::state::InputEventChunkV>)>,
    chunks: Seq<crate::state::InputEventChunkV>,
    labels: Seq<Option<Seq<char>>>,
) -> Seq<(Seq<char>, Seq<crate::state::InputEventChunkV>)>
    decreases chunks.len(),
{
    if chunks.len() == 0 || labels.len() != chunks.len() {
        acc
    } else {
        let acc1 = match labels[0] {
            None => acc,
            Some(label) => {
                let j = assoc_first(acc, label);
                if j < 0 {
                    acc.push((label, seq![chunks[0]]))
                } else {
                    acc.update(j, (label, acc[j].1.push(chunks[0])))
                }
            },
        };
        group_chunks_spec(acc1, chunks.drop_first(), labels.drop_first())
    }
}

/// Views of a grouped chunk vector.
pub open spec fn chunk_group_views(
    s: Seq<(String, Vec<crate::state::InputEventChunk>)>,
) -> Seq<(Seq<char>, Seq<crate::state::InputEventChunkV>)> {
    s.map_values(
        |p: (String, Vec<crate::state::InputEventChunk>)|
            (p.0@, p.1@.map_values(|c: crate::state::InputEventChunk| c@)),
    )
}

/// Views of an optional-label vector.
pub open spec fn label_views(s: Seq<Option<String>>) -> Seq<Option<Seq<char>>> {
    s.map_values(
        |o: Option<String>|
            match o {
                Some(l) => Some(l@),
                None => None,
            },
    )
}

/// Groups chunks by their day labels, keeping each day's chunks in input
/// order.
pub fn group_chunks_by_day(
    chunks: Vec<crate::state::InputEventChunk>,
    labels: Vec<Option<String>>,
) -> (r: Vec<(String, Vec<crate::state::InputEventChunk>)>)
    requires
        labels@.len() == chunks@.len(),
    ensures
        chunk_group_views(r@) == group_chunks_spec(
            Seq::empty(),
            chunks@.map_values(|c: crate::state::InputEventChunk| c@),
            label_views(labels@),
        ),
{
    let ghost cf = |c: crate::state::InputEventChunk| c@;
    let ghost target = group_chunks_spec(
        Seq::empty(),
        chunks@.map_values(cf),
        label_views(labels@),
    );
    let mut rest = chunks;
    let mut lrest = labels;
    let mut acc: Vec<(String, Vec<crate::state::InputEventChunk>)> = Vec::new();
    proof {
        assert(chunk_group_views(acc@) =~= Seq::<
            (Seq<char>, Seq<crate::state::InputEventChunkV>),
        >::empty());
        assert(chunks@.map_values(cf) == rest@.map_values(cf));
    }
    while rest.len() > 0
        invariant
            cf == (|c: crate::state::InputEventChunk| c@),
            lrest@.len() == rest@.len(),
            group_chunks_spec(chunk_group_views(acc@), rest@.map_values(cf), label_views(lrest@))
                == target,
        decreases rest@.len(),
    {
        let ghost pre_groups = chunk_group_views(acc@);
        let ghost pre_rest = rest@.map_values(cf);
        let ghost pre_labels = label_views(lrest@);
        let chunk = rest.remove(0);
        let label_opt = lrest.remove(0);
        proof {
            assert(rest@.map_values(cf) =~= pre_rest.drop_first());
            assert(label_views(lrest@) =~= pre_labels.drop_first());
            assert(cf(chunk) == pre_rest[0]);
            assert(label_views(lrest@).len() == rest@.len());
        }
        match label_opt {
            None => {
                proof {
                    assert(pre_labels[0] is None);
                }
            },
            Some(label) => {
                let ghost lv = label@;
                proof {
                    assert(pre_labels[0] == Some(lv));
                }
                let mut j: usize = 0;
                let mut found: bool = false;
                while j < acc.len()
                    invariant
                        label@ == lv,
                        chunk_group_views(acc@) == pre_groups,
                        j <= acc@.len(),
                        found ==> j < acc@.len() && pre_groups[j as int].0 == lv,
                        forall|x: int| 0 <= x < j ==> (#[trigger] pre_groups[x]).0 != lv,
                    ensures
                        chunk_group_views(acc@) == pre_groups,
                        found ==> j < acc@.len() && pre_groups[j as int].0 == lv,
                        forall|x: int| 0 <= x < j ==> (#[trigger] pre_groups[x]).0 != lv,
                        !found ==> forall|x: int|
                            0 <= x < acc@.len() ==> (#[trigger] pre_groups[x]).0 != lv,
                    decreases acc@.len() - j,
                {
                    if str_eq(acc[j].0.as_str(), label.as_str()) {
                        found = true;
                        proof {
                            assert(pre_groups[j as int].0 == acc@[j as int].0@);
                        }
                        break ;
                    }
                    proof {
                        assert(pre_groups[j as int].0 == acc@[j as int].0@);
                    }
                    j = j + 1;
                }
                proof {
                    lemma_assoc_first(pre_groups, lv);
                    let ja = assoc_first(pre_groups, lv);
                    if found {
                        assert(ja == j) by {
                            if ja < j {
                                assert(pre_groups[ja].0 != lv);
                            }
                            if ja > j || ja < 0 {
                                assert(pre_groups[j as int].0 == lv);
                            }
                        }
                    } else {
                        assert(ja < 0) by {
                            if ja >= 0 {
                                assert(pre_groups[ja].0 == lv);
                            }
                        }
                    }
                }
                if found {
                    let mut entry = acc.remove(j);
                    let ghost pre_entry = entry.1@.map_values(cf);
                    entry.1.push(chunk);
                    proof {
                        assert(entry.1@.map_values(cf) =~= pre_entry.push(pre_rest[0]));
                    }
                    acc.insert(j, entry);
                    proof {
                        let g = |p: (String, Vec<crate::state::InputEventChunk>)|
                            (p.0@, p.1@.map_values(|c: crate::state::InputEventChunk| c@));
                        let upd = pre_groups.update(
                            j as int,
                            (lv, pre_groups[j as int].1.push(pre_rest[0])),
                        );
                        assert(acc@.len() == pre_groups.len());
                        assert forall|x: int| 0 <= x < pre_groups.len() implies g(
                            #[trigger] acc@[x],
                        ) == upd[x] by {
                            if x != j {
                                assert(g(acc@[x]) == pre_groups[x]);
                            } else {
                                assert(entry.0@ == lv);
                                assert(pre_entry == pre_groups[j as int].1);
                            }
                        }
                        assert(chunk_group_views(acc@) =~= upd);
                    }
                } else {
                    let mut day_chunks: Vec<crate::state::InputEventChunk> = Vec::new();
                    day_chunks.push(chunk);
                    proof {
                        assert(day_chunks@.map_values(cf) =~= seq![pre_rest[0]]);
                    }
                    acc.push((label, day_chunks));
                    proof {
                        assert(chunk_group_views(acc@) =~= pre_groups.push(
                            (lv, seq![pre_rest[0]]),
                        ));
                    }
                }
            },
        }
    }
    proof {
        assert(rest@.map_values(cf).len() == 0);
    }
    acc
}

/// The dictionary restricted to references some chunk of the group uses.
pub open spec fn scoped_dict_spec(
    dict: Seq<(u32, Seq<char>)>,
    chunks: Seq<crate::state::InputEventChunkV>,
) -> Seq<(u32, Seq<char>)> {
    dict.filter(
        |p: (u32, Seq<char>)| exists|i: int| 0 <= i < chunks.len() && chunks[i].app_ref == p.0,
    )
}

/// Keeps only the dictionary entries that a chunk of the group refers to.
pub fn scoped_app_dict(
    dict: &Vec<(u32, String)>,
    chunks: &Vec<crate::state::InputEventChunk>,
) -> (r: Vec<(u32, String)>)
    ensures
        r@.map_values(|p: (u32, String)| (p.0, p.1@)) == scoped_dict_spec(
            dict@.map_values(|p: (u32, String)| (p.0, p.1@)),
            chunks@.map_values(|c: crate::state::InputEventChunk| c@),
        ),
{
    let ghost df = |p: (u32, String)| (p.0, p.1@);
    let ghost cf = |c: crate::state::InputEventChunk| c@;
    let ghost cv = chunks@.map_values(cf);
    let ghost pred = |p: (u32, Seq<char>)| exists|i: int|
        0 <= i < cv.len() && cv[i].app_ref == p.0;
    let mut out: Vec<(u32, String)> = Vec::new();
    let mut i: usize = 0;
    proof {
        reveal(Seq::filter);
        assert(out@.map_values(df) =~= dict@.subrange(0, 0).map_values(df).filter(pred));
    }
    while i < dict.len()
        invariant
            df == (|p: (u32, String)| (p.0, p.1@)),
            cf == (|c: crate::state::InputEventChunk| c@),
            cv == chunks@.map_values(cf),
            pred == (|p: (u32, Seq<char>)| exists|i: int|
                0 <= i < cv.len() && cv[i].app_ref == p.0),
            i <= dict@.len(),
            out@.map_values(df) == dict@.subrange(0, i as int).map_values(df).filter(pred),
        decreases dict@.len() - i,
    {
        let ghost pre = out@.map_values(df);
        let mut used: bool = false;
        let mut k: usize = 0;
        while k < chunks.len()
            invariant
                cf == (|c: crate::state::InputEventChunk| c@),
                cv == chunks@.map_values(cf),
                i < dict@.len(),
                k <= chunks@.len(),
                used ==> exists|x: int| 0 <= x < cv.len() && (#[trigger] cv[x]).app_ref
                    == dict@[i as int].0,
                !used ==> forall|x: int| 0 <= x < k ==> (#[trigger] cv[x]).app_ref != dict@[
                    i as int
                ].0,
            ensures
                used ==> exists|x: int| 0 <= x < cv.len() && (#[trigger] cv[x]).app_ref == dict@[
                    i as int
                ].0,
                !used ==> forall|x: int|
                    0 <= x < cv.len() ==> (#[trigger] cv[x]).app_ref != dict@[i as int].0,
            decreases chunks@.len() - k,
        {
            if chunks[k].app_ref == dict[i].0 {
                used = true;
                proof {
                    assert(cv[k as int].app_ref == dict@[i as int].0);
                }
                break ;
            }
            proof {
                assert(cv[k as int].app_ref == chunks@[k as int]@.app_ref);
            }
            k = k + 1;
        }
        let ghost ext = dict@.subrange(0, i + 1).map_values(df);
        proof {
            assert(ext.drop_last() =~= dict@.subrange(0, i as int).map_values(df));
            assert(ext.last() == df(dict@[i as int]));
        }
        if used {
            out.push((dict[i].0, dict[i].1.clone()));
            proof {
                reveal(Seq::filter);
                assert(pred(df(dict@[i as int])));
                assert(out@.map_values(df) =~= ext.filter(pred));
            }
        } else {
            proof {
                reveal(Seq::filter);
                assert(!pred(df(dict@[i as int])));
                assert(out@.map_values(df) =~= ext.filter(pred));
            }
        }
        i = i + 1;
    }
    proof {
        assert(dict@.subrange(0, dict@.len() as int) =~= dict@);
    }
    out
}

/// File names ending in the daily-analytics suffix whose day is not among
/// the days about to be written; those shards are stale and reclaimed.
pub open spec fn stale_files_spec(
    existing: Seq<Seq<char>>,
    suffix: Seq<char>,
    keep: Seq<Seq<char>>,
) -> Seq<Seq<char>> {
    existing.filter(
        |name: Seq<char>| crate::text::has_suffix(name, suffix) && !crate::state::seq_has(
            keep,
            name.subrange(0, name.len() - suffix.len()),
        ),
    )
}

/// Picks the daily shard files to delete before a save: those with the
/// daily suffix whose day prefix is not being rewritten.
pub fn stale_daily_files(existing: &Vec<String>, suffix: &str, keep: &Vec<String>) -> (r: Vec<
    String,
>)
    ensures
        views_of(r@) == stale_files_spec(views_of(existing@), suffix@, views_of(keep@)),
{
    let ghost pred = |name: Seq<char>| crate::text::has_suffix(name, suffix@)
        && !crate::state::seq_has(
        views_of(keep@),
        name.subrange(0, name.len() - suffix@.len()),
    );
    let mut out: Vec<String> = Vec::new();
    let mut i: usize = 0;
    proof {
        reveal(Seq::filter);
        assert(views_of(out@) =~= views_of(existing@).subrange(0, 0).filter(pred));
    }
    while i < existing.len()
        invariant
            pred == (|name: Seq<char>| crate::text::has_suffix(name, suffix@)
                && !crate::state::seq_has(
                views_of(keep@),
                name.subrange(0, name.len() - suffix@.len()),
            )),
            i <= existing@.len(),
            views_of(out@) == views_of(existing@).subrange(0, i as int).filter(pred),
        decreases existing@.len() - i,
    {
        let name = &existing[i];
        let ghost nv = existing@[i as int]@;
        let mut stale: bool = false;
        if crate::text::ends_with(name.as_str(), suffix) {
            let plen: usize = name.as_str().unicode_len() - suffix.unicode_len();
            let prefix = name.as_str().substring_char(0, plen);
            proof {
                assert(prefix@ =~= nv.subrange(0, nv.len() - suffix@.len()));
            }
            stale = !crate::shortcut::contains_str(keep, prefix);
        }
        let ghost ext = views_of(existing@).subrange(0, i + 1);
        proof {
            assert(ext.drop_last() =~= views_of(existing@).subrange(0, i as int));
            assert(ext.last() == nv);
        }
        if stale {
            out.push(name.clone());
            proof {
                reveal(Seq::filter);
                assert(pred(nv));
                assert(views_of(out@) =~= ext.filter(pred));
            }
        } else {
            proof {
                reveal(Seq::filter);
                assert(!pred(nv));
                assert(views_of(out@) =~= ext.filter(pred));
            }
        }
        i = i + 1;
    }
    proof {
        assert(views_of(existing@).subrange(0, views_of(existing@).len() as int) =~= views_of(
            existing@,
        ));
    }
    out
}

} // verus!

verus! {

/// All bucket keys named by `rows` are absent from the table `acc`.
pub open spec fn rows_disjoint_from(
    acc: Seq<(StatsKeyV, StatsValue)>,
    rows: Seq<StoredRowV>,
) -> bool {
    forall|i: int|
        0 <= i < rows.len() ==> assoc_first(acc, key_of_row(#[trigger] rows[i])) < 0
}

/// Loading the rows of two shards whose bucket keys do not overlap gives
/// the two loaded tables side by side, whichever shard is read first: a
/// row of one day can never feed a bucket of another day.
pub proof fn lemma_rows_to_stats_append_disjoint(a: Seq<StoredRowV>, b: Seq<StoredRowV>)
    requires
        rows_disjoint_from(rows_to_stats_spec(a), b),
    ensures
        rows_to_stats_spec(a + b) == rows_to_stats_spec(a) + rows_to_stats_spec(b),
    decreases b.len(),
{
    if b.len() == 0 {
        assert(a + b =~= a);
        assert(rows_to_stats_spec(b) =~= Seq::<(StatsKeyV, StatsValue)>::empty());
        assert(rows_to_stats_spec(a) + rows_to_stats_spec(b) =~= rows_to_stats_spec(a));
    } else {
        let front = b.drop_last();
        assert(rows_disjoint_from(rows_to_stats_spec(a), front)) by {
            assert(forall|i: int| 0 <= i < front.len() ==> #[trigger] front[i] == b[i]);
        }
        lemma_rows_to_stats_append_disjoint(a, front);
        assert((a + b).drop_last() =~= a + front);
        assert((a + b).last() == b.last());
        let ta = rows_to_stats_spec(a);
        let tf = rows_to_stats_spec(front);
        let k = key_of_row(b.last());
        assert(assoc_first(ta, k) < 0) by {
            assert(b[b.len() - 1] == b.last());
        }
        lemma_assoc_first(ta, k);
        lemma_assoc_first(tf, k);
        lemma_assoc_first(ta + tf, k);
        let j = assoc_first(ta + tf, k);
        let jf = assoc_first(tf, k);
        if jf < 0 {
            assert(j < 0) by {
                if j >= 0 {
                    assert((ta + tf)[j].0 == k);
                    if j < ta.len() {
                        assert(ta[j].0 == k);
                    } else {
                        assert(tf[j - ta.len()].0 == k);
                    }
                }
            }
            assert(rows_to_stats_spec(a + b) =~= ta + tf.push(
                (
                    k,
                    StatsValue {
                        active_typing_ms: b.last().active_typing_ms,
                        key_count: b.last().key_count,
                        session_count: b.last().session_count,
                    },
                ),
            ));
            assert(upsert_row(tf, b.last()) == tf.push(
                (
                    k,
                    StatsValue {
                        active_typing_ms: b.last().active_typing_ms,
                        key_count: b.last().key_count,
                        session_count: b.last().session_count,
                    },
                ),
            ));
        } else {
            assert(j == ta.len() + jf) by {
                assert((ta + tf)[ta.len() + jf].0 == k);
                if j < ta.len() + jf {
                    if j < ta.len() {
                        assert(ta[j].0 == k);
                    } else {
                        assert(tf[j - ta.len()].0 == k);
                    }
                }
                if j > ta.len() + jf || j < 0 {
                    assert((ta + tf)[ta.len() + jf].0 == k);
                }
            }
            let merged = (
                k,
                StatsValue {
                    active_typing_ms: crate::state::sat_add_u64(
                        tf[jf].1.active_typing_ms,
                        b.last().active_typing_ms,
                    ),
                    key_count: crate::state::sat_add_u64(tf[jf].1.key_count, b.last().key_count),
                    session_count: crate::state::sat_add_u64(
                        tf[jf].1.session_count,
                        b.last().session_count,
                    ),
                },
            );
            assert((ta + tf)[j].1 == tf[jf].1);
            assert(rows_to_stats_spec(a + b) == (ta + tf).update(j, merged));
            assert(upsert_row(tf, b.last()) == tf.update(jf, merged));
            assert((ta + tf).update(j, merged) =~= ta + tf.update(jf, merged));
        }
    }
}

} // verus!
