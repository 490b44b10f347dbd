//! The public control surface: snapshot builders and the administrative
//! mutations the UI drives.

use crate::config::MenuBarDisplayMode;
use crate::event::{StatsKey, StatsValue};
use crate::events::reset_spec;
use crate::shortcut::{shortcut_rows_of, ShortcutStatRow, ShortcutStatRowV};
use crate::sort::{sort_by_stable, sort_vec, views_of, SortOrder};
use crate::state::{CollectorState, CollectorStateV};
use crate::text::{lex_le, lemma_lex_le_antisym, lemma_lex_le_total, lemma_lex_le_trans, str_le};
use vstd::prelude::*;

verus! {

/// One row of the typing-intensity table, as shown to the UI and to the
/// CSV mirror.
pub struct StatsRow {
    pub date: String,
    pub app_name: String,
    pub window_title: String,
    pub active_typing_ms: u64,
    pub key_count: u64,
    pub session_count: u64,
}

/// Ghost image of a `StatsRow`.
pub struct StatsRowV {
    pub date: Seq<char>,
    pub app_name: Seq<char>,
    pub window_title: Seq<char>,
    pub active_typing_ms: u64,
    pub key_count: u64,
    pub session_count: u64,
}

impl View for StatsRow {
    type V = StatsRowV;

    open spec fn view(&self) -> StatsRowV {
        StatsRowV {
            date: self.date@,
            app_name: self.app_name@,
            window_title: self.window_title@,
            active_typing_ms: self.active_typing_ms,
            key_count: self.key_count,
            session_count: self.session_count,
        }
    }
}

impl Clone for StatsRow {
    fn clone(&self) -> (r: Self)
        ensures
            r@ == self@,
    {
        StatsRow {
            date: self.date.clone(),
            app_name: self.app_name.clone(),
            window_title: self.window_title.clone(),
            active_typing_ms: self.active_typing_ms,
            key_count: self.key_count,
            session_count: self.session_count,
        }
    }
}

impl SortOrder for StatsRow {
    open spec fn leq(a: StatsRowV, b: StatsRowV) -> bool {
        if a.date != b.date {
            lex_le(a.date, b.date)
        } else if a.app_name != b.app_name {
            lex_le(a.app_name, b.app_name)
        } else if a.window_title != b.window_title {
            lex_le(a.window_title, b.window_title)
        } else {
            a.active_typing_ms <= b.active_typing_ms
        }
    }

    fn leq_exec(&self, other: &Self) -> (r: bool) {
        if !self.date.eq(&other.date) {
            str_le(self.date.as_str(), other.date.as_str())
        } else if !self.app_name.eq(&other.app_name) {
            str_le(self.app_name.as_str(), other.app_name.as_str())
        } else if !self.window_title.eq(&other.window_title) {
            str_le(self.window_title.as_str(), other.window_title.as_str())
        } else {
            self.active_typing_ms <= other.active_typing_ms
        }
    }

    proof fn lemma_leq_total(a: StatsRowV, b: StatsRowV) {
        if a.date != b.date {
            lemma_lex_le_total(a.date, b.date);
        } else if a.app_name != b.app_name {
            lemma_lex_le_total(a.app_name, b.app_name);
        } else if a.window_title != b.window_title {
            lemma_lex_le_total(a.window_title, b.window_title);
        }
    }

    proof fn lemma_leq_trans(a: StatsRowV, b: StatsRowV, c: StatsRowV) {
        if a.date != b.date && b.date != c.date && a.date == c.date {
            lemma_lex_le_antisym(a.date, b.date);
        } else if a.date != b.date && b.date != c.date {
            lemma_lex_le_trans(a.date, b.date, c.date);
        } else if a.date == b.date && b.date == c.date {
            if a.app_name != b.app_name && b.app_name != c.app_name && a.app_name == c.app_name {
                lemma_lex_le_antisym(a.app_name, b.app_name);
            } else if a.app_name != b.app_name && b.app_name != c.app_name {
                lemma_lex_le_trans(a.app_name, b.app_name, c.app_name);
            } else if a.app_name == b.app_name && b.app_name == c.app_name {
                if a.window_title != b.window_title && b.window_title != c.window_title
                    && a.window_title == c.window_title {
                    lemma_lex_le_antisym(a.window_title, b.window_title);
                } else if a.window_title != b.window_title && b.window_title != c.window_title {
                    lemma_lex_le_trans(a.window_title, b.window_title, c.window_title);
                }
            }
        }
    }
}

/// The full snapshot payload the UI polls.
pub struct StatsSnapshot {
    pub rows: Vec<StatsRow>,
    pub paused: bool,
    pub auto_paused: bool,
    pub auto_pause_reason: Option<String>,
    pub keyboard_active: bool,
    pub ignore_key_combos: bool,
    pub excluded_bundle_ids: Vec<String>,
    pub one_password_suggestion_pending: bool,
    pub tray_display_mode: String,
    pub last_error: Option<String>,
    pub log_path: String,
    pub shortcut_stats: Vec<ShortcutStatRow>,
}

/// The bucket table as sorted rows: ascending by date, application,
/// window title, then accumulated typing time.
pub open spec fn stats_rows_of(stats: Seq<(crate::event::StatsKeyV, StatsValue)>) -> Seq<
    StatsRowV,
> {
    let rows = stats.map_values(
        |p: (crate::event::StatsKeyV, StatsValue)| StatsRowV {
            date: p.0.date,
            app_name: p.0.app_name,
            window_title: p.0.window_title,
            active_typing_ms: p.1.active_typing_ms,
            key_count: p.1.key_count,
            session_count: p.1.session_count,
        },
    );
    sort_by_stable(rows, |a: StatsRowV, b: StatsRowV| <StatsRow as SortOrder>::leq(a, b))
}

/// Sorted row snapshots of the in-memory bucket table. Building rows
/// cannot fail; the fallible shape is kept for callers that treat the
/// snapshot as part of the persistence surface.
pub fn snapshot_rows(state: &CollectorState) -> (r: Result<Vec<StatsRow>, String>)
    ensures
        r is Ok,
        r is Ok ==> views_of(r.unwrap()@) == stats_rows_of(state@.stats),
{
    let ghost rowv = |p: (crate::event::StatsKeyV, StatsValue)| StatsRowV {
        date: p.0.date,
        app_name: p.0.app_name,
        window_title: p.0.window_title,
        active_typing_ms: p.1.active_typing_ms,
        key_count: p.1.key_count,
        session_count: p.1.session_count,
    };
    let ghost f = |p: (StatsKey, StatsValue)| (p.0@, p.1);
    let mut rows: Vec<StatsRow> = Vec::new();
    let mut i: usize = 0;
    proof {
        assert(views_of(rows@) =~= state.stats@.subrange(0, 0).map_values(f).map_values(rowv));
    }
    while i < state.stats.len()
        invariant
            rowv == (|p: (crate::event::StatsKeyV, StatsValue)| StatsRowV {
                date: p.0.date,
                app_name: p.0.app_name,
                window_title: p.0.window_title,
                active_typing_ms: p.1.active_typing_ms,
                key_count: p.1.key_count,
                session_count: p.1.session_count,
            }),
            f == (|p: (StatsKey, StatsValue)| (p.0@, p.1)),
            i <= state.stats@.len(),
            views_of(rows@) == state.stats@.subrange(0, i as int).map_values(f).map_values(rowv),
        decreases state.stats@.len() - i,
    {
        let ghost pre = rows@;
        let key = &state.stats[i].0;
        let value = state.stats[i].1;
        rows.push(
            StatsRow {
                date: key.date.clone(),
                app_name: key.app_name.clone(),
                window_title: key.window_title.clone(),
                active_typing_ms: value.active_typing_ms,
                key_count: value.key_count,
                session_count: value.session_count,
            },
        );
        proof {
            assert(pre.len() == i) by {
                assert(views_of(pre).len() == pre.len());
            }
            assert forall|k: int| 0 <= k < i + 1 implies views_of(rows@)[k] == state.stats@.subrange(
                0,
                i + 1,
            ).map_values(f).map_values(rowv)[k] by {
                if k < i {
                    assert(views_of(pre)[k] == state.stats@.subrange(0, i as int).map_values(
                        f,
                    ).map_values(rowv)[k]);
                }
            }
            assert(views_of(rows@) =~= state.stats@.subrange(0, i + 1).map_values(f).map_values(
                rowv,
            ));
        }
        i = i + 1;
    }
    proof {
        assert(state.stats@.subrange(0, state.stats@.len() as int) =~= state.stats@);
        assert(state.stats@.map_values(f).map_values(rowv) == state@.stats.map_values(rowv));
    }
    let sorted = sort_vec(rows);
    Ok(sorted)
}

/// The sorted, deduplicated exclusion list as shown in the snapshot.
pub open spec fn sorted_excluded_of(s: Seq<Seq<char>>) -> Seq<Seq<char>> {
    sort_by_stable(s, |a: Seq<char>, b: Seq<char>| <String as SortOrder>::leq(a, b))
}

/// Builds the full snapshot payload of the current state.
pub fn snapshot(state: &CollectorState) -> (r: StatsSnapshot)
    ensures
        views_of(r.rows@) == stats_rows_of(state@.stats),
        r.paused == state@.paused,
        r.auto_paused == state@.auto_paused,
        crate::state::opt_str_view(r.auto_pause_reason) == state@.auto_pause_reason,
        r.keyboard_active == state@.keyboard_active,
        r.ignore_key_combos == state@.ignore_key_combos,
        views_of(r.excluded_bundle_ids@) == sorted_excluded_of(state@.excluded_bundle_ids),
        r.one_password_suggestion_pending == state@.one_password_suggestion_pending,
        r.tray_display_mode@ == state@.menu_bar_display_mode.spec_label(),
        crate::state::opt_str_view(r.last_error) == state@.last_error,
        r.log_path@ == state@.log_path,
        views_of(r.shortcut_stats@) == shortcut_rows_of(state@.shortcut_usage),
{
    let rows = match snapshot_rows(state) {
        Ok(rows) => rows,
        Err(_) => Vec::new(),
    };
    let shortcut_stats = crate::shortcut::snapshot_shortcut_rows(state);
    let excluded = crate::state::clone_string_vec(&state.excluded_bundle_ids);
    let excluded_bundle_ids = sort_vec(excluded);
    StatsSnapshot {
        rows,
        paused: state.paused,
        auto_paused: state.auto_paused,
        auto_pause_reason: match &state.auto_pause_reason {
            Some(reason) => Some(reason.clone()),
            None => None,
        },
        keyboard_active: state.keyboard_active,
        ignore_key_combos: state.ignore_key_combos,
        excluded_bundle_ids,
        one_password_suggestion_pending: state.one_password_suggestion_pending,
        tray_display_mode: String::from_str(state.menu_bar_display_mode.as_str()),
        last_error: match &state.last_error {
            Some(err) => Some(err.clone()),
            None => None,
        },
        log_path: state.log_path.clone(),
        shortcut_stats,
    }
}

/// The state after a pause request: pausing also clears runtime key state
/// so a held key cannot keep accruing time.
pub open spec fn set_paused_spec(s: CollectorStateV, paused: bool) -> CollectorStateV {
    let s1 = CollectorStateV { paused, ..s };
    if paused {
        reset_spec(s1)
    } else {
        s1
    }
}

pub fn set_paused(state: &mut CollectorState, paused: bool)
    requires
        old(state).wf(),
    ensures
        final(state).wf(),
        final(state)@ == set_paused_spec(old(state)@, paused),
{
    state.paused = paused;
    if paused {
        crate::events::reset_active_typing_state(state);
    }
}

pub fn set_ignore_key_combos(state: &mut CollectorState, ignore_key_combos: bool)
    requires
        old(state).wf(),
    ensures
        final(state).wf(),
        final(state)@ == (CollectorStateV { ignore_key_combos, ..old(state)@ }),
{
    state.ignore_key_combos = ignore_key_combos;
}

pub fn set_menu_bar_display_mode(state: &mut CollectorState, mode: MenuBarDisplayMode)
    requires
        old(state).wf(),
    ensures
        final(state).wf(),
        final(state)@ == (CollectorStateV { menu_bar_display_mode: mode, ..old(state)@ }),
{
    state.menu_bar_display_mode = mode;
}

pub fn set_one_password_suggestion_pending(state: &mut CollectorState, pending: bool)
    requires
        old(state).wf(),
    ensures
        final(state).wf(),
        final(state)@ == (CollectorStateV {
            one_password_suggestion_pending: pending,
            ..old(state)@
        }),
{
    state.one_password_suggestion_pending = pending;
}

/// Entries trimmed, lowercased, and emptied entries dropped, in order.
pub fn normalize_kept_tokens(list: &Vec<String>) -> (r: Vec<String>)
    ensures
        views_of(r@) == views_of(list@).map_values(|t: Seq<char>| crate::text::norm_token(t)).filter(
            |t: Seq<char>| t.len() > 0,
        ),
{
    let mut kept: Vec<String> = Vec::new();
    let mut i: usize = 0;
    let ghost orig: Seq<Seq<char>> = views_of(list@);
    proof {
        assert(orig.subrange(0, 0).map_values(|t: Seq<char>| crate::text::norm_token(t)).filter(
            |t: Seq<char>| t.len() > 0,
        ) =~= Seq::<Seq<char>>::empty());
        assert(views_of(kept@) =~= Seq::<Seq<char>>::empty());
    }
    while i < list.len()
        invariant
            orig == views_of(list@),
            i <= list@.len(),
            views_of(kept@) == orig.subrange(0, i as int).map_values(
                |t: Seq<char>| crate::text::norm_token(t),
            ).filter(|t: Seq<char>| t.len() > 0),
        decreases list@.len() - i,
    {
        let token = crate::text::normalize_token(list[i].as_str());
        let ghost pre = orig.subrange(0, i as int).map_values(
            |t: Seq<char>| crate::text::norm_token(t),
        );
        let ghost ext = orig.subrange(0, i + 1).map_values(
            |t: Seq<char>| crate::text::norm_token(t),
        );
        proof {
            assert(ext.drop_last() =~= pre);
            assert(ext.last() == crate::text::norm_token(orig[i as int]));
        }
        if token.as_str().unicode_len() > 0 {
            kept.push(token);
            proof {
                reveal(Seq::filter);
                assert(views_of(kept@) =~= ext.filter(|t: Seq<char>| t.len() > 0));
            }
        } else {
            proof {
                reveal(Seq::filter);
                assert(views_of(kept@) =~= ext.filter(|t: Seq<char>| t.len() > 0));
            }
        }
        i = i + 1;
    }
    proof {
        assert(orig.subrange(0, orig.len() as int) =~= orig);
    }
    kept
}

/// The normalized form of a caller-supplied token list.
pub open spec fn kept_tokens_of(s: Seq<Seq<char>>) -> Seq<Seq<char>> {
    s.map_values(|t: Seq<char>| crate::text::norm_token(t)).filter(|t: Seq<char>| t.len() > 0)
}

/// Replaces the shortcut counting rules. List entries are trimmed and
/// lowercased; empty entries are dropped; the minimum modifier count is
/// floored at one.
pub fn set_shortcut_rules(
    state: &mut CollectorState,
    require_cmd_or_ctrl: bool,
    allow_alt_only: bool,
    min_modifiers: u8,
    allowlist: &Vec<String>,
    blocklist: &Vec<String>,
)
    requires
        old(state).wf(),
    ensures
        final(state).wf(),
        final(state)@ == (CollectorStateV {
            shortcut_require_cmd_or_ctrl: require_cmd_or_ctrl,
            shortcut_allow_alt_only: allow_alt_only,
            shortcut_min_modifiers: if min_modifiers < 1 {
                1
            } else {
                min_modifiers
            },
            shortcut_allowlist: kept_tokens_of(views_of(allowlist@)),
            shortcut_blocklist: kept_tokens_of(views_of(blocklist@)),
            ..old(state)@
        }),
{
    state.shortcut_require_cmd_or_ctrl = require_cmd_or_ctrl;
    state.shortcut_allow_alt_only = allow_alt_only;
    state.shortcut_min_modifiers = if min_modifiers < 1 {
        1
    } else {
        min_modifiers
    };
    state.shortcut_allowlist = normalize_kept_tokens(allowlist);
    state.shortcut_blocklist = normalize_kept_tokens(blocklist);
}

/// Replaces the exclusion list: entries normalized, empties dropped, the
/// rest sorted with duplicates collapsed.
pub fn set_excluded_bundle_ids(state: &mut CollectorState, bundle_ids: &Vec<String>)
    requires
        old(state).wf(),
    ensures
        final(state).wf(),
        final(state)@ == (CollectorStateV {
            excluded_bundle_ids: crate::text::dedup_adj(
                sort_by_stable(
                    kept_tokens_of(views_of(bundle_ids@)),
                    |a: Seq<char>, b: Seq<char>| <String as SortOrder>::leq(a, b),
                ),
            ),
            ..old(state)@
        }),
{
    let kept = normalize_kept_tokens(bundle_ids);
    let sorted = sort_vec(kept);
    state.excluded_bundle_ids = crate::text::dedup_adjacent(sorted);
}

/// Adds one identifier to the exclusion list. Returns whether the list
/// changed: an empty normalized identifier or an already-present one
/// leaves it untouched.
pub fn add_excluded_bundle_id(state: &mut CollectorState, bundle_id: &str) -> (r: bool)
    requires
        old(state).wf(),
    ensures
        final(state).wf(),
        r == (crate::text::norm_token(bundle_id@).len() > 0 && !crate::state::seq_has(
            old(state)@.excluded_bundle_ids,
            crate::text::norm_token(bundle_id@),
        )),
        r ==> final(state)@ == (CollectorStateV {
            excluded_bundle_ids: old(state)@.excluded_bundle_ids.push(
                crate::text::norm_token(bundle_id@),
            ),
            ..old(state)@
        }),
        !r ==> final(state)@ == old(state)@,
{
    let normalized = crate::text::normalize_token(bundle_id);
    if normalized.as_str().unicode_len() == 0 {
        return false;
    }
    if crate::shortcut::contains_str(&state.excluded_bundle_ids, normalized.as_str()) {
        return false;
    }
    let ghost pre = state@;
    state.excluded_bundle_ids.push(normalized);
    proof {
        assert(state@.excluded_bundle_ids =~= pre.excluded_bundle_ids.push(
            crate::text::norm_token(bundle_id@),
        ));
    }
    true
}

/// Removes one identifier from the exclusion list. Returns whether an
/// entry was removed.
pub fn remove_excluded_bundle_id(state: &mut CollectorState, bundle_id: &str) -> (r: bool)
    requires
        old(state).wf(),
    ensures
        final(state).wf(),
        r == crate::state::seq_has(
            old(state)@.excluded_bundle_ids,
            crate::text::norm_token(bundle_id@),
        ),
        r ==> final(state)@ == (CollectorStateV {
            excluded_bundle_ids: old(state)@.excluded_bundle_ids.remove(
                crate::state::first_idx(
                    old(state)@.excluded_bundle_ids,
                    crate::text::norm_token(bundle_id@),
                ),
            ),
            ..old(state)@
        }),
        !r ==> final(state)@ == old(state)@,
{
    let normalized = crate::text::normalize_token(bundle_id);
    let ghost target = crate::text::norm_token(bundle_id@);
    let mut i: usize = 0;
    while i < state.excluded_bundle_ids.len()
        invariant
            old(state).wf(),
            state == old(state),
            i <= state.excluded_bundle_ids@.len(),
            normalized@ == target,
            target == crate::text::norm_token(bundle_id@),
            forall|j: int| 0 <= j < i ==> state@.excluded_bundle_ids[j] != target,
        decreases state.excluded_bundle_ids@.len() - i,
    {
        if crate::text::str_eq(state.excluded_bundle_ids[i].as_str(), normalized.as_str()) {
            proof {
                assert(state@.excluded_bundle_ids[i as int] == target);
                crate::state::lemma_first_idx(state@.excluded_bundle_ids, target);
                let j = crate::state::first_idx(state@.excluded_bundle_ids, target);
                assert(j == i) by {
                    if j < i {
                        assert(state@.excluded_bundle_ids[j] != target);
                    }
                    if j > i || j < 0 {
                        assert(state@.excluded_bundle_ids[i as int] == target);
                    }
                }
            }
            let ghost pre = state@;
            proof {
                assert(pre == old(state)@);
            }
            state.excluded_bundle_ids.remove(i);
            proof {
                assert(state@.excluded_bundle_ids =~= pre.excluded_bundle_ids.remove(i as int));
                assert(crate::state::seq_has(old(state)@.excluded_bundle_ids, target)) by {
                    assert(old(state)@.excluded_bundle_ids[i as int] == target);
                }
                assert(crate::state::first_idx(old(state)@.excluded_bundle_ids, target)
                    == i as int);
                assert(state@ == (CollectorStateV {
                    excluded_bundle_ids: old(state)@.excluded_bundle_ids.remove(
                        crate::state::first_idx(old(state)@.excluded_bundle_ids, target),
                    ),
                    ..old(state)@
                }));
                assert(crate::state::wf_state(state@));
            }
            return true;
        }
        proof {
            assert(state@.excluded_bundle_ids[i as int]
                == state.excluded_bundle_ids@[i as int]@);
        }
        i = i + 1;
    }
    proof {
        if crate::state::seq_has(state@.excluded_bundle_ids, target) {
            let j = choose|j: int|
                0 <= j < state@.excluded_bundle_ids.len() && state@.excluded_bundle_ids[j]
                    == target;
            assert(state@.excluded_bundle_ids[j] != target);
        }
    }
    false
}

/// Clears every aggregate: buckets, shortcut usage, and the whole chunk
/// store. Persisting the emptied state is the runtime's next step.
pub fn clear_stats(state: &mut CollectorState)
    requires
        old(state).wf(),
    ensures
        final(state).wf(),
        final(state)@ == (CollectorStateV {
            stats: Seq::empty(),
            shortcut_usage: Seq::empty(),
            event_chunks: Seq::empty(),
            open_event_chunk: None,
            ..old(state)@
        }),
{
    state.stats.clear();
    state.shortcut_usage.clear();
    state.event_chunks.clear();
    state.open_event_chunk = None;
    proof {
        assert(state@.stats =~= Seq::empty());
        assert(state@.shortcut_usage =~= Seq::empty());
        assert(state@.event_chunks =~= Seq::empty());
        assert(state@ == (CollectorStateV {
            stats: Seq::empty(),
            shortcut_usage: Seq::empty(),
            event_chunks: Seq::empty(),
            open_event_chunk: None,
            ..old(state)@
        }));
    }
}

impl CollectorState {
    /// Sorted row snapshots of the in-memory bucket table.
    pub fn snapshot_rows(&self) -> (r: Result<Vec<StatsRow>, String>)
        ensures
            r is Ok,
            r is Ok ==> views_of(r.unwrap()@) == stats_rows_of(self@.stats),
    {
        snapshot_rows(self)
    }

    /// The full snapshot payload the UI polls.
    pub fn snapshot(&self) -> (r: StatsSnapshot)
        ensures
            views_of(r.rows@) == stats_rows_of(self@.stats),
            r.paused == self@.paused,
            r.ignore_key_combos == self@.ignore_key_combos,
            views_of(r.excluded_bundle_ids@) == sorted_excluded_of(self@.excluded_bundle_ids),
            views_of(r.shortcut_stats@) == shortcut_rows_of(self@.shortcut_usage),
    {
        snapshot(self)
    }

    pub fn set_paused(&mut self, paused: bool)
        requires
            old(self).wf(),
        ensures
            final(self).wf(),
            final(self)@ == set_paused_spec(old(self)@, paused),
    {
        set_paused(self, paused)
    }

    pub fn set_ignore_key_combos(&mut self, ignore_key_combos: bool)
        requires
            old(self).wf(),
        ensures
            final(self).wf(),
            final(self)@ == (CollectorStateV { ignore_key_combos, ..old(self)@ }),
    {
        set_ignore_key_combos(self, ignore_key_combos)
    }

    pub fn set_menu_bar_display_mode(&mut self, mode: MenuBarDisplayMode)
        requires
            old(self).wf(),
        ensures
            final(self).wf(),
            final(self)@ == (CollectorStateV { menu_bar_display_mode: mode, ..old(self)@ }),
    {
        set_menu_bar_display_mode(self, mode)
    }

    pub fn set_shortcut_rules(
        &mut self,
        require_cmd_or_ctrl: bool,
        allow_alt_only: bool,
        min_modifiers: u8,
        allowlist: &Vec<String>,
        blocklist: &Vec<String>,
    )
        requires
            old(self).wf(),
        ensures
            final(self).wf(),
            final(self)@ == (CollectorStateV {
                shortcut_require_cmd_or_ctrl: require_cmd_or_ctrl,
                shortcut_allow_alt_only: allow_alt_only,
                shortcut_min_modifiers: if min_modifiers < 1 {
                    1
                } else {
                    min_modifiers
                },
                shortcut_allowlist: kept_tokens_of(views_of(allowlist@)),
                shortcut_blocklist: kept_tokens_of(views_of(blocklist@)),
                ..old(self)@
            }),
    {
        set_shortcut_rules(self, require_cmd_or_ctrl, allow_alt_only, min_modifiers, allowlist, blocklist)
    }

    pub fn set_excluded_bundle_ids(&mut self, bundle_ids: &Vec<String>)
        requires
            old(self).wf(),
        ensures
            final(self).wf(),
            final(self)@ == (CollectorStateV {
                excluded_bundle_ids: crate::text::dedup_adj(
                    sort_by_stable(
                        kept_tokens_of(views_of(bundle_ids@)),
                        |a: Seq<char>, b: Seq<char>| <String as SortOrder>::leq(a, b),
                    ),
                ),
                ..old(self)@
            }),
    {
        set_excluded_bundle_ids(self, bundle_ids)
    }

    pub fn add_excluded_bundle_id(&mut self, bundle_id: &str) -> (r: bool)
        requires
            old(self).wf(),
        ensures
            final(self).wf(),
            r == (crate::text::norm_token(bundle_id@).len() > 0 && !crate::state::seq_has(
                old(self)@.excluded_bundle_ids,
                crate::text::norm_token(bundle_id@),
            )),
            !r ==> final(self)@ == old(self)@,
    {
        add_excluded_bundle_id(self, bundle_id)
    }

    pub fn remove_excluded_bundle_id(&mut self, bundle_id: &str) -> (r: bool)
        requires
            old(self).wf(),
        ensures
            final(self).wf(),
            r == crate::state::seq_has(
                old(self)@.excluded_bundle_ids,
                crate::text::norm_token(bundle_id@),
            ),
            !r ==> final(self)@ == old(self)@,
    {
        remove_excluded_bundle_id(self, bundle_id)
    }

    pub fn set_one_password_suggestion_pending(&mut self, pending: bool)
        requires
            old(self).wf(),
        ensures
            final(self).wf(),
            final(self)@ == (CollectorStateV {
                one_password_suggestion_pending: pending,
                ..old(self)@
            }),
    {
        set_one_password_suggestion_pending(self, pending)
    }

    /// Clears every aggregate.
    pub fn clear_stats(&mut self)
        requires
            old(self).wf(),
        ensures
            final(self).wf(),
            final(self)@ == (CollectorStateV {
                stats: Seq::empty(),
                shortcut_usage: Seq::empty(),
                event_chunks: Seq::empty(),
                open_event_chunk: None,
                ..old(self)@
            }),
    {
        clear_stats(self)
    }
}

} // verus!
