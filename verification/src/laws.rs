//! The laws the collector keeps, stated over the transition relation and
//! proved for every state and event: auto-repeat suppression, the silence
//! of ticks without held keys, exact time accounting, admitted shortcut
//! ids coming only from the normalizer, and the active bucket tracking
//! the pressed set.

use crate::event::{CaptureContextV, CollectorEventV, StatsKeyV, StatsValue};
use crate::events::{
    accumulate_spec, auto_paused_spec, bucket_step, collector_step, key_down_step, key_up_step,
    reset_spec, tick_step, with_auto_pause,
};
use crate::modifier::ModifierSnapshot;
use crate::shortcut::{append_event_spec, normalize_id, resolve_ref_spec, update_usage_spec};
use crate::state::{
    active_tracks_pressed, assoc_first, assoc_get, lemma_assoc_first, lemma_assoc_first_push_other,
    lemma_assoc_first_same_keys, sat_add_u64, seq_has, wf_state, CollectorStateV,
};
use vstd::prelude::*;

verus! {

/// Auto-repeat suppression: a second key-down of a physical key that is
/// still held changes nothing more than the first did, whatever instants
/// the two events carry. In particular every counter moves at most once
/// per physical press.
pub proof fn lemma_key_down_repeat_suppressed(
    s: CollectorStateV,
    physical_key_id: Seq<char>,
    shortcut_key: Seq<char>,
    m: ModifierSnapshot,
    is_key_combo: bool,
    ctx: CaptureContextV,
    minute: Seq<char>,
    at1: u64,
    now1: int,
    at2: u64,
    now2: int,
)
    ensures
        key_down_step(
            key_down_step(
                s,
                physical_key_id,
                shortcut_key,
                m,
                is_key_combo,
                ctx,
                minute,
                at1,
                now1,
            ),
            physical_key_id,
            shortcut_key,
            m,
            is_key_combo,
            ctx,
            minute,
            at2,
            now2,
        ) == key_down_step(s, physical_key_id, shortcut_key, m, is_key_combo, ctx, minute, at1, now1),
{
    let s1 = with_auto_pause(s, ctx);
    let post = key_down_step(s, physical_key_id, shortcut_key, m, is_key_combo, ctx, minute, at1, now1);
    if s1.paused || s1.auto_paused || (s1.ignore_key_combos && is_key_combo) {
        assert(post == s1);
        assert(with_auto_pause(post, ctx) == post);
    } else if seq_has(s1.pressed_non_modifier_keys, physical_key_id) {
        assert(post == s1);
        assert(with_auto_pause(post, ctx) == post);
    } else {
        let s2 = CollectorStateV {
            pressed_non_modifier_keys: s1.pressed_non_modifier_keys.push(physical_key_id),
            ..s1
        };
        let s3 = append_event_spec(s2, ctx, 'd', shortcut_key, m, now1);
        let s4 = update_usage_spec(s3, ctx, shortcut_key, m);
        assert(post == bucket_step(s4, ctx, minute, at1));
        assert(s3.pressed_non_modifier_keys == s2.pressed_non_modifier_keys);
        assert(s3.excluded_bundle_ids == s.excluded_bundle_ids);
        assert(s3.paused == s.paused && s3.auto_paused == s1.auto_paused);
        assert(s4.pressed_non_modifier_keys == s2.pressed_non_modifier_keys);
        assert(post.pressed_non_modifier_keys == s2.pressed_non_modifier_keys);
        assert(post.excluded_bundle_ids == s.excluded_bundle_ids);
        assert(post.paused == s.paused);
        assert(post.auto_paused == s1.auto_paused && post.auto_pause_reason
            == s1.auto_pause_reason);
        assert(post.ignore_key_combos == s.ignore_key_combos);
        assert(auto_paused_spec(post, ctx) == auto_paused_spec(s, ctx));
        assert(crate::events::reason_spec(post, ctx) == crate::events::reason_spec(s, ctx));
        assert(with_auto_pause(post, ctx) == post);
        assert(seq_has(post.pressed_non_modifier_keys, physical_key_id)) by {
            assert(post.pressed_non_modifier_keys.last() == physical_key_id);
        }
    }
}

/// Ticks while no key is held never change the bucket table, paused or
/// not.
pub proof fn lemma_tick_empty_pressed(
    s: CollectorStateV,
    elapsed_ms: u64,
    ctx: CaptureContextV,
    at_ms: u64,
)
    requires
        s.pressed_non_modifier_keys.len() == 0,
    ensures
        tick_step(s, elapsed_ms, ctx, at_ms).stats == s.stats,
{
}

/// The sum of accounted typing time over the whole bucket table.
pub open spec fn total_active(stats: Seq<(StatsKeyV, StatsValue)>) -> int
    decreases stats.len(),
{
    if stats.len() == 0 {
        0
    } else {
        total_active(stats.drop_last()) + stats.last().1.active_typing_ms
    }
}

proof fn lemma_total_active_update(
    stats: Seq<(StatsKeyV, StatsValue)>,
    j: int,
    p: (StatsKeyV, StatsValue),
)
    requires
        0 <= j < stats.len(),
    ensures
        total_active(stats.update(j, p)) == total_active(stats) - stats[j].1.active_typing_ms
            + p.1.active_typing_ms,
    decreases stats.len(),
{
    if j == stats.len() - 1 {
        assert(stats.update(j, p).drop_last() =~= stats.drop_last());
        assert(stats.update(j, p).last() == p);
    } else {
        assert(stats.update(j, p).drop_last() =~= stats.drop_last().update(j, p));
        assert(stats.update(j, p).last() == stats.last());
        lemma_total_active_update(stats.drop_last(), j, p);
    }
}

/// Exact accounting: a tick while at least one key is held, with capture
/// not paused in any way, adds exactly its elapsed time to the total
/// accounted typing time, as long as the active bucket's counter does not
/// saturate.
pub proof fn lemma_tick_accumulates(
    s: CollectorStateV,
    elapsed_ms: u64,
    ctx: CaptureContextV,
    at_ms: u64,
)
    requires
        !s.paused,
        !auto_paused_spec(s, ctx),
        s.pressed_non_modifier_keys.len() > 0,
        s.active_stats_key is Some,
        ({
            let j = assoc_first(s.stats, s.active_stats_key.unwrap());
            j >= 0 ==> s.stats[j].1.active_typing_ms + elapsed_ms <= u64::MAX
        }),
    ensures
        total_active(tick_step(s, elapsed_ms, ctx, at_ms).stats) == total_active(s.stats)
            + elapsed_ms,
{
    let s1 = with_auto_pause(s, ctx);
    assert(!s1.paused && !s1.auto_paused);
    let k = s.active_stats_key.unwrap();
    let j = assoc_first(s1.stats, k);
    lemma_assoc_first(s1.stats, k);
    let post = accumulate_spec(s1, elapsed_ms, at_ms);
    if j < 0 {
        let added = (k, StatsValue { active_typing_ms: elapsed_ms, key_count: 0, session_count: 0 });
        assert(post.stats == s1.stats.push(added));
        assert(post.stats.drop_last() =~= s1.stats);
        assert(post.stats.last() == added);
    } else {
        let v = s1.stats[j].1;
        let updated = (
            k,
            StatsValue {
                active_typing_ms: sat_add_u64(v.active_typing_ms, elapsed_ms),
                key_count: v.key_count,
                session_count: v.session_count,
            },
        );
        assert(post.stats == s1.stats.update(j, updated));
        lemma_total_active_update(s1.stats, j, updated);
        assert(sat_add_u64(v.active_typing_ms, elapsed_ms) == v.active_typing_ms + elapsed_ms);
    }
}

/// One counted key-down moves exactly one bucket: the key named by the
/// event's context and minute gains one key press, and every other bucket
/// keeps its value.
pub proof fn lemma_key_down_counts_once(
    s: CollectorStateV,
    physical_key_id: Seq<char>,
    shortcut_key: Seq<char>,
    m: ModifierSnapshot,
    is_key_combo: bool,
    ctx: CaptureContextV,
    minute: Seq<char>,
    at_ms: u64,
    now_ms: int,
)
    requires
        wf_state(s),
        !s.paused,
        !auto_paused_spec(s, ctx),
        !(s.ignore_key_combos && is_key_combo),
        !seq_has(s.pressed_non_modifier_keys, physical_key_id),
    ensures
        ({
            let k = crate::event::stats_key_of(ctx, minute);
            let post = key_down_step(
                s,
                physical_key_id,
                shortcut_key,
                m,
                is_key_combo,
                ctx,
                minute,
                at_ms,
                now_ms,
            );
            &&& match assoc_get(s.stats, k) {
                Some(v) => assoc_get(post.stats, k) == Some(
                    StatsValue {
                        active_typing_ms: v.active_typing_ms,
                        key_count: sat_add_u64(v.key_count, 1),
                        session_count: assoc_get(post.stats, k).unwrap().session_count,
                    },
                ),
                None => assoc_get(post.stats, k) matches Some(nv) && nv.key_count == 1
                    && nv.active_typing_ms == 0,
            }
            &&& forall|k2: StatsKeyV|
                k2 != k ==> #[trigger] assoc_get(post.stats, k2) == assoc_get(s.stats, k2)
        }),
{
    let s1 = with_auto_pause(s, ctx);
    let s2 = CollectorStateV {
        pressed_non_modifier_keys: s1.pressed_non_modifier_keys.push(physical_key_id),
        ..s1
    };
    let s3 = append_event_spec(s2, ctx, 'd', shortcut_key, m, now_ms);
    let s4 = update_usage_spec(s3, ctx, shortcut_key, m);
    assert(s3.stats == s.stats);
    assert(s4.stats == s.stats);
    let k = crate::event::stats_key_of(ctx, minute);
    let post = bucket_step(s4, ctx, minute, at_ms);
    let j = assoc_first(s.stats, k);
    lemma_assoc_first(s.stats, k);
    if j < 0 {
        let added = post.stats.last();
        assert(post.stats == s.stats.push(added));
        lemma_assoc_first(post.stats, k);
        let j2 = assoc_first(post.stats, k);
        assert(j2 >= 0) by {
            if j2 < 0 {
                assert(post.stats[post.stats.len() - 1].0 != k);
            }
        }
        assert(post.stats[j2].0 == k);
        assert(j2 == post.stats.len() - 1) by {
            if j2 < post.stats.len() - 1 {
                assert(s.stats[j2].0 == k);
            }
        }
        assert forall|k2: StatsKeyV| k2 != k implies #[trigger] assoc_get(post.stats, k2)
            == assoc_get(s.stats, k2) by {
            assert(added.0 == k);
            lemma_assoc_first_push_other(s.stats, added, k2);
            lemma_assoc_first(s.stats, k2);
            lemma_assoc_first(post.stats, k2);
        }
    } else {
        let v = s.stats[j].1;
        let updated = (
            k,
            StatsValue {
                active_typing_ms: v.active_typing_ms,
                key_count: sat_add_u64(v.key_count, 1),
                session_count: post.stats[j].1.session_count,
            },
        );
        assert(post.stats =~= s.stats.update(j, updated));
        assert forall|k2: StatsKeyV| #[trigger]
            assoc_first(post.stats, k2) == assoc_first(s.stats, k2) by {
            lemma_assoc_first_same_keys(post.stats, s.stats, k2);
        }
        lemma_assoc_first(post.stats, k);
        assert forall|k2: StatsKeyV| k2 != k implies #[trigger] assoc_get(post.stats, k2)
            == assoc_get(s.stats, k2) by {
            lemma_assoc_first_same_keys(post.stats, s.stats, k2);
            lemma_assoc_first(s.stats, k2);
            let j2 = assoc_first(s.stats, k2);
            if j2 >= 0 {
                assert(s.stats[j2].0 == k2);
                assert(j2 != j);
                assert(post.stats[j2] == s.stats[j2]);
            }
        }
    }
}

/// The shortcut ids of a usage table.
pub open spec fn usage_ids(u: Seq<(Seq<char>, crate::state::ShortcutUsageV)>) -> Seq<Seq<char>> {
    u.map_values(|p: (Seq<char>, crate::state::ShortcutUsageV)| p.0)
}

/// Admitted shortcut ids come only from the normalizer: any id present
/// after a key-down was either present before or is exactly the canonical
/// id of the event's modifiers and key.
pub proof fn lemma_admitted_ids_from_normalizer(
    s: CollectorStateV,
    physical_key_id: Seq<char>,
    shortcut_key: Seq<char>,
    m: ModifierSnapshot,
    is_key_combo: bool,
    ctx: CaptureContextV,
    minute: Seq<char>,
    at_ms: u64,
    now_ms: int,
)
    ensures
        forall|x: Seq<char>|
            seq_has(
                usage_ids(
                    key_down_step(
                        s,
                        physical_key_id,
                        shortcut_key,
                        m,
                        is_key_combo,
                        ctx,
                        minute,
                        at_ms,
                        now_ms,
                    ).shortcut_usage,
                ),
                x,
            ) ==> seq_has(usage_ids(s.shortcut_usage), x) || x == normalize_id(m, shortcut_key),
{
    let s1 = with_auto_pause(s, ctx);
    let post = key_down_step(
        s,
        physical_key_id,
        shortcut_key,
        m,
        is_key_combo,
        ctx,
        minute,
        at_ms,
        now_ms,
    );
    if s1.paused || s1.auto_paused || (s1.ignore_key_combos && is_key_combo) || seq_has(
        s1.pressed_non_modifier_keys,
        physical_key_id,
    ) {
        assert(post.shortcut_usage == s.shortcut_usage);
    } else {
        let s2 = CollectorStateV {
            pressed_non_modifier_keys: s1.pressed_non_modifier_keys.push(physical_key_id),
            ..s1
        };
        let s3 = append_event_spec(s2, ctx, 'd', shortcut_key, m, now_ms);
        let s4 = update_usage_spec(s3, ctx, shortcut_key, m);
        assert(s3.shortcut_usage == s.shortcut_usage);
        assert(post.shortcut_usage == s4.shortcut_usage);
        let id = normalize_id(m, shortcut_key);
        if crate::shortcut::should_count_spec(s3, m, id) {
            let j = assoc_first(s3.shortcut_usage, id);
            lemma_assoc_first(s3.shortcut_usage, id);
            assert forall|x: Seq<char>| seq_has(usage_ids(post.shortcut_usage), x) implies seq_has(
                usage_ids(s.shortcut_usage),
                x,
            ) || x == id by {
                let i = choose|i: int|
                    0 <= i < usage_ids(post.shortcut_usage).len() && usage_ids(
                        post.shortcut_usage,
                    )[i] == x;
                if j < 0 {
                    if i < post.shortcut_usage.len() - 1 {
                        assert(usage_ids(s.shortcut_usage)[i] == x);
                    } else {
                        assert(post.shortcut_usage[i].0 == id);
                    }
                } else {
                    if i == j {
                        assert(post.shortcut_usage[i].0 == id);
                    } else {
                        assert(usage_ids(s.shortcut_usage)[i] == x);
                    }
                }
            }
        } else {
            assert(post.shortcut_usage == s.shortcut_usage);
        }
    }
}

/// Between events a non-empty pressed set always has an active bucket:
/// the property is preserved by every collector transition.
pub proof fn lemma_step_keeps_active_tracking(s: CollectorStateV, ev: CollectorEventV, now_ms: int)
    requires
        active_tracks_pressed(s),
    ensures
        active_tracks_pressed(collector_step(s, ev, now_ms)),
{
    match ev {
        CollectorEventV::NonModifierKeyDown {
            physical_key_id,
            shortcut_key,
            modifiers,
            is_key_combo,
            capture_context,
            minute,
            at_ms,
        } => {
            let s1 = with_auto_pause(s, capture_context);
            if s1.paused || s1.auto_paused || (s1.ignore_key_combos && is_key_combo) || seq_has(
                s1.pressed_non_modifier_keys,
                physical_key_id,
            ) {
            } else {
                let s2 = CollectorStateV {
                    pressed_non_modifier_keys: s1.pressed_non_modifier_keys.push(physical_key_id),
                    ..s1
                };
                let s3 = append_event_spec(s2, capture_context, 'd', shortcut_key, modifiers, now_ms);
                let s4 = update_usage_spec(s3, capture_context, shortcut_key, modifiers);
                let post = bucket_step(s4, capture_context, minute, at_ms);
                assert(post.active_stats_key is Some);
            }
        },
        CollectorEventV::NonModifierKeyUp {
            physical_key_id,
            shortcut_key,
            modifiers,
            capture_context,
        } => {
            let s1 = append_event_spec(s, capture_context, 'u', shortcut_key, modifiers, now_ms);
            assert(s1.pressed_non_modifier_keys == s.pressed_non_modifier_keys);
            assert(s1.active_stats_key == s.active_stats_key);
            let post = key_up_step(s, physical_key_id, shortcut_key, modifiers, capture_context, now_ms);
            if post.pressed_non_modifier_keys.len() > 0 {
                assert(s.pressed_non_modifier_keys.len() > 0);
            }
        },
        CollectorEventV::Tick { elapsed_ms, capture_context, at_ms } => {
            let s1 = with_auto_pause(s, capture_context);
            if s1.paused || s1.auto_paused {
                assert(reset_spec(s1).pressed_non_modifier_keys.len() == 0);
            }
        },
    }
}

} // verus!
