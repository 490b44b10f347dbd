//! The event state machine: applies key and tick events to the collector
//! state, enforcing auto-repeat suppression, session boundaries, pause and
//! auto-pause semantics, and exact time accounting.

use crate::event::{
    stats_key_from_context, stats_key_of, CaptureContext, CaptureContextV, CollectorEvent,
    CollectorEventV, StatsKey, StatsKeyV, StatsValue,
};
use crate::modifier::ModifierSnapshot;
use crate::shortcut::{
    append_event_spec, append_input_event, update_shortcut_usage, update_usage_spec,
};
use crate::sort::views_of;
use crate::state::{
    assoc_first, lemma_assoc_first, lemma_first_idx, first_idx, sat_add_u64, sat_sub_u64,
    saturating_add_u64, saturating_sub_u64, seq_has, CollectorState, CollectorStateV,
};
use crate::text::{lower_seq, lowercase, str_eq};
use vstd::prelude::*;

verus! {

/// Whether the context's application is on the exclusion list. The bundle
/// identifier is lowercased before the lookup; a context without a bundle
/// identifier is never excluded.
pub open spec fn is_excluded_spec(s: CollectorStateV, ctx: CaptureContextV) -> bool {
    match ctx.bundle_id {
        Some(b) => seq_has(s.excluded_bundle_ids, lower_seq(b)),
        None => false,
    }
}

pub fn is_excluded_app(state: &CollectorState, context: &CaptureContext) -> (r: bool)
    ensures
        r == is_excluded_spec(state@, context@),
{
    match &context.bundle_id {
        Some(bundle_id) => {
            let lowered = lowercase(bundle_id.as_str());
            crate::shortcut::contains_str(&state.excluded_bundle_ids, lowered.as_str())
        },
        None => false,
    }
}

/// Whether capture is auto-paused under this context: the application is
/// excluded or secure input is active.
pub open spec fn auto_paused_spec(s: CollectorStateV, ctx: CaptureContextV) -> bool {
    is_excluded_spec(s, ctx) || ctx.secure_input
}

pub fn is_auto_paused(state: &CollectorState, context: &CaptureContext) -> (r: bool)
    ensures
        r == auto_paused_spec(state@, context@),
{
    is_excluded_app(state, context) || context.secure_input
}

/// The auto-pause reason under this context; secure input wins over the
/// exclusion list.
pub open spec fn reason_spec(s: CollectorStateV, ctx: CaptureContextV) -> Option<Seq<char>> {
    if ctx.secure_input {
        Some("secure_input"@)
    } else if is_excluded_spec(s, ctx) {
        Some("blacklist"@)
    } else {
        None
    }
}

pub fn auto_pause_reason(state: &CollectorState, context: &CaptureContext) -> (r: Option<String>)
    ensures
        crate::state::opt_str_view(r) == reason_spec(state@, context@),
{
    if context.secure_input {
        return Some(String::from_str("secure_input"));
    }
    if is_excluded_app(state, context) {
        return Some(String::from_str("blacklist"));
    }
    None
}

/// A key press is ignored entirely when combo filtering is on and the
/// press had a held modifier.
pub fn should_ignore_keypress(ignore_key_combos: bool, is_key_combo: bool) -> (r: bool)
    ensures
        r == (ignore_key_combos && is_key_combo),
{
    ignore_key_combos && is_key_combo
}

/// The state with the pressed set and the active bucket cleared.
pub open spec fn reset_spec(s: CollectorStateV) -> CollectorStateV {
    CollectorStateV {
        pressed_non_modifier_keys: Seq::empty(),
        active_stats_key: None,
        ..s
    }
}

/// Clears runtime key state so a pause cannot leak accumulation later.
pub fn reset_active_typing_state(state: &mut CollectorState)
    requires
        old(state).wf(),
    ensures
        final(state).wf(),
        final(state)@ == reset_spec(old(state)@),
{
    state.pressed_non_modifier_keys.clear();
    state.active_stats_key = None;
    proof {
        assert(views_of(state.pressed_non_modifier_keys@) =~= Seq::<Seq<char>>::empty());
        assert(state@ =~~= reset_spec(old(state)@));
    }
}

/// The state with the auto-pause fields recomputed from a context.
pub open spec fn with_auto_pause(s: CollectorStateV, ctx: CaptureContextV) -> CollectorStateV {
    CollectorStateV {
        auto_paused: auto_paused_spec(s, ctx),
        auto_pause_reason: reason_spec(s, ctx),
        ..s
    }
}

/// The bucket accounting of one counted key-down at monotonic `at_ms`
/// under local minute `minute`: the bucket gains one key; a gap larger
/// than the session threshold since the last counted activity, or the
/// first counted key-down of the process, opens a new session; the bucket
/// becomes the active one.
pub open spec fn bucket_step(
    s: CollectorStateV,
    ctx: CaptureContextV,
    minute: Seq<char>,
    at_ms: u64,
) -> CollectorStateV {
    let k = stats_key_of(ctx, minute);
    let new_session = match s.last_typing_at_ms {
        None => true,
        Some(l) => sat_sub_u64(at_ms, l) > s.session_gap_ms,
    };
    let j = assoc_first(s.stats, k);
    let stats = if j < 0 {
        s.stats.push(
            (
                k,
                StatsValue {
                    active_typing_ms: 0,
                    key_count: 1,
                    session_count: if new_session {
                        1
                    } else {
                        0
                    },
                },
            ),
        )
    } else {
        let v = s.stats[j].1;
        s.stats.update(
            j,
            (
                k,
                StatsValue {
                    active_typing_ms: v.active_typing_ms,
                    key_count: sat_add_u64(v.key_count, 1),
                    session_count: if new_session {
                        sat_add_u64(v.session_count, 1)
                    } else {
                        v.session_count
                    },
                },
            ),
        )
    };
    CollectorStateV {
        stats,
        last_typing_at_ms: Some(at_ms),
        active_stats_key: Some(k),
        ..s
    }
}

/// The full effect of one non-modifier key-down: auto-pause is recomputed;
/// a paused, auto-paused or filtered press is dropped; an auto-repeated
/// press of a still-held key is dropped; otherwise the key joins the
/// pressed set, a compact `d` event is logged, shortcut usage is updated,
/// and the bucket accounting runs.
pub open spec fn key_down_step(
    s: CollectorStateV,
    physical_key_id: Seq<char>,
    shortcut_key: Seq<char>,
    m: ModifierSnapshot,
    is_key_combo: bool,
    ctx: CaptureContextV,
    minute: Seq<char>,
    at_ms: u64,
    now_ms: int,
) -> CollectorStateV {
    let s1 = with_auto_pause(s, ctx);
    if s1.paused || s1.auto_paused || (s1.ignore_key_combos && is_key_combo) {
        s1
    } else if seq_has(s1.pressed_non_modifier_keys, physical_key_id) {
        s1
    } else {
        let s2 = CollectorStateV {
            pressed_non_modifier_keys: s1.pressed_non_modifier_keys.push(physical_key_id),
            ..s1
        };
        let s3 = append_event_spec(s2, ctx, 'd', shortcut_key, m, now_ms);
        let s4 = update_usage_spec(s3, ctx, shortcut_key, m);
        bucket_step(s4, ctx, minute, at_ms)
    }
}

/// The full effect of one non-modifier key-up: a compact `u` event is
/// logged, the key leaves the pressed set, and the active bucket is
/// cleared once no key is held. Key-ups are never gated by pause.
pub open spec fn key_up_step(
    s: CollectorStateV,
    physical_key_id: Seq<char>,
    shortcut_key: Seq<char>,
    m: ModifierSnapshot,
    ctx: CaptureContextV,
    now_ms: int,
) -> CollectorStateV {
    let s1 = append_event_spec(s, ctx, 'u', shortcut_key, m, now_ms);
    let j = first_idx(s1.pressed_non_modifier_keys, physical_key_id);
    let pressed = if j >= 0 {
        s1.pressed_non_modifier_keys.remove(j)
    } else {
        s1.pressed_non_modifier_keys
    };
    CollectorStateV {
        pressed_non_modifier_keys: pressed,
        active_stats_key: if pressed.len() == 0 {
            None
        } else {
            s1.active_stats_key
        },
        ..s1
    }
}

/// The accounting part of one tick: while at least one key is held and an
/// active bucket exists, the elapsed time is added to that bucket and the
/// last-typing instant advances.
pub open spec fn accumulate_spec(s: CollectorStateV, elapsed_ms: u64, at_ms: u64) -> CollectorStateV {
    if s.pressed_non_modifier_keys.len() == 0 {
        s
    } else {
        match s.active_stats_key {
            None => s,
            Some(k) => {
                let j = assoc_first(s.stats, k);
                let stats = if j < 0 {
                    s.stats.push(
                        (
                            k,
                            StatsValue {
                                active_typing_ms: elapsed_ms,
                                key_count: 0,
                                session_count: 0,
                            },
                        ),
                    )
                } else {
                    let v = s.stats[j].1;
                    s.stats.update(
                        j,
                        (
                            k,
                            StatsValue {
                                active_typing_ms: sat_add_u64(v.active_typing_ms, elapsed_ms),
                                key_count: v.key_count,
                                session_count: v.session_count,
                            },
                        ),
                    )
                };
                CollectorStateV { stats, last_typing_at_ms: Some(at_ms), ..s }
            },
        }
    }
}

/// The full effect of one tick: auto-pause is recomputed; a paused or
/// auto-paused tick clears the runtime key state; otherwise elapsed time
/// is accounted to the active bucket.
pub open spec fn tick_step(
    s: CollectorStateV,
    elapsed_ms: u64,
    ctx: CaptureContextV,
    at_ms: u64,
) -> CollectorStateV {
    let s1 = with_auto_pause(s, ctx);
    if s1.paused || s1.auto_paused {
        reset_spec(s1)
    } else {
        accumulate_spec(s1, elapsed_ms, at_ms)
    }
}

/// The transition relation of the collector: what one event does to the
/// state, given the wall-clock millisecond `now_ms` used for compact-event
/// timestamps.
pub open spec fn collector_step(s: CollectorStateV, ev: CollectorEventV, now_ms: int) -> CollectorStateV {
    match ev {
        CollectorEventV::NonModifierKeyDown {
            physical_key_id,
            shortcut_key,
            modifiers,
            is_key_combo,
            capture_context,
            minute,
            at_ms,
        } => key_down_step(
            s,
            physical_key_id,
            shortcut_key,
            modifiers,
            is_key_combo,
            capture_context,
            minute,
            at_ms,
            now_ms,
        ),
        CollectorEventV::NonModifierKeyUp {
            physical_key_id,
            shortcut_key,
            modifiers,
            capture_context,
        } => key_up_step(s, physical_key_id, shortcut_key, modifiers, capture_context, now_ms),
        CollectorEventV::Tick { elapsed_ms, capture_context, at_ms } => tick_step(
            s,
            elapsed_ms,
            capture_context,
            at_ms,
        ),
    }
}

} // verus!

verus! {

/// Applies the bucket accounting of one counted key-down.
fn bucket_apply(state: &mut CollectorState, capture_context: &CaptureContext, minute: &str, at_ms: u64)
    requires
        old(state).wf(),
    ensures
        final(state).wf(),
        final(state)@ == bucket_step(old(state)@, capture_context@, minute@, at_ms),
{
    let key = stats_key_from_context(capture_context, minute);
    let new_session: bool = match state.last_typing_at_ms {
        None => true,
        Some(l) => saturating_sub_u64(at_ms, l) > state.session_gap_ms,
    };
    let ghost pre = state@;
    let mut i: usize = 0;
    let mut found: bool = false;
    while i < state.stats.len()
        invariant
            old(state).wf(),
            state == old(state),
            i <= state.stats@.len(),
            found ==> i < state.stats@.len() && state@.stats[i as int].0 == key@,
            !found ==> forall|j: int| 0 <= j < i ==> (#[trigger] state@.stats[j]).0 != key@,
        ensures
            state == old(state),
            found ==> i < state.stats@.len() && state@.stats[i as int].0 == key@,
            !found ==> forall|j: int|
                0 <= j < state.stats@.len() ==> (#[trigger] state@.stats[j]).0 != key@,
        decreases state.stats@.len() - i,
    {
        if state.stats[i].0.key_eq(&key) {
            found = true;
            proof {
                assert(state@.stats[i as int].0 == key@);
            }
            break ;
        }
        proof {
            assert(state@.stats[i as int].0 == state.stats@[i as int].0@);
        }
        i = i + 1;
    }
    if found {
        proof {
            lemma_assoc_first(pre.stats, key@);
            let j = assoc_first(pre.stats, key@);
            assert(j == i) by {
                if j < i {
                    assert(pre.stats[j].0 != key@);
                }
                if j > i || j < 0 {
                    assert(pre.stats[i as int].0 == key@);
                }
            }
        }
        let entry = state.stats.remove(i);
        let value = StatsValue {
            active_typing_ms: entry.1.active_typing_ms,
            key_count: saturating_add_u64(entry.1.key_count, 1),
            session_count: if new_session {
                saturating_add_u64(entry.1.session_count, 1)
            } else {
                entry.1.session_count
            },
        };
        state.stats.insert(i, (entry.0, value));
        state.last_typing_at_ms = Some(at_ms);
        state.active_stats_key = Some(key);
        proof {
            let target = bucket_step(pre, capture_context@, minute@, at_ms);
            let g = |p: (StatsKey, StatsValue)| (p.0@, p.1);
            assert(state.stats@.len() == pre.stats.len());
            assert forall|j: int| 0 <= j < pre.stats.len() implies g(#[trigger] state.stats@[j])
                == target.stats[j] by {
                if j != i {
                }
            }
            assert(state@.stats =~= target.stats);
            assert(state@ =~~= target);
            assert forall|x: int, y: int| #![trigger state@.stats[x], state@.stats[y]]
                0 <= x < y < state@.stats.len() implies state@.stats[x].0 != state@.stats[y].0 by {
                assert(pre.stats[x].0 != pre.stats[y].0);
            }
            assert(crate::state::wf_state(state@));
        }
    } else {
        proof {
            lemma_assoc_first(pre.stats, key@);
            assert(assoc_first(pre.stats, key@) < 0) by {
                if assoc_first(pre.stats, key@) >= 0 {
                    assert(pre.stats[assoc_first(pre.stats, key@)].0 == key@);
                }
            }
        }
        let value = StatsValue {
            active_typing_ms: 0,
            key_count: 1,
            session_count: if new_session {
                1
            } else {
                0
            },
        };
        state.stats.push((key.clone(), value));
        state.last_typing_at_ms = Some(at_ms);
        state.active_stats_key = Some(key);
        proof {
            let target = bucket_step(pre, capture_context@, minute@, at_ms);
            assert(state@.stats =~= target.stats);
            assert(state@ =~~= target);
            assert forall|x: int, y: int| #![trigger state@.stats[x], state@.stats[y]]
                0 <= x < y < state@.stats.len() implies state@.stats[x].0 != state@.stats[y].0 by {
                if y == state@.stats.len() - 1 {
                    assert(pre.stats[x].0 != key@);
                } else {
                    assert(pre.stats[x].0 != pre.stats[y].0);
                }
            }
            assert(crate::state::wf_state(state@));
        }
    }
}

/// Applies one non-modifier key-down. A repeated key-down of a still-held
/// physical key changes nothing beyond the recomputed auto-pause fields.
pub fn apply_non_modifier_key_down(
    state: &mut CollectorState,
    physical_key_id: String,
    shortcut_key: String,
    modifiers: ModifierSnapshot,
    is_key_combo: bool,
    capture_context: CaptureContext,
    minute: String,
    at_ms: u64,
    now_ms: i64,
)
    requires
        old(state).wf(),
    ensures
        final(state).wf(),
        final(state)@ == key_down_step(
            old(state)@,
            physical_key_id@,
            shortcut_key@,
            modifiers,
            is_key_combo,
            capture_context@,
            minute@,
            at_ms,
            now_ms as int,
        ),
{
    let auto = is_auto_paused(state, &capture_context);
    let reason = auto_pause_reason(state, &capture_context);
    state.auto_paused = auto;
    state.auto_pause_reason = reason;
    let ghost s1 = state@;
    proof {
        assert(s1 == with_auto_pause(old(state)@, capture_context@));
    }
    if state.paused || state.auto_paused || should_ignore_keypress(
        state.ignore_key_combos,
        is_key_combo,
    ) {
        return ;
    }
    if crate::shortcut::contains_str(&state.pressed_non_modifier_keys, physical_key_id.as_str()) {
        return ;
    }
    let ghost pk = physical_key_id@;
    state.pressed_non_modifier_keys.push(physical_key_id);
    proof {
        assert(state@.pressed_non_modifier_keys =~= s1.pressed_non_modifier_keys.push(pk));
        assert forall|x: int, y: int|
            #![trigger state@.pressed_non_modifier_keys[x], state@.pressed_non_modifier_keys[y]]
            0 <= x < y < state@.pressed_non_modifier_keys.len() implies state@
            .pressed_non_modifier_keys[x] != state@.pressed_non_modifier_keys[y] by {
            if y == state@.pressed_non_modifier_keys.len() - 1 {
                assert(!seq_has(s1.pressed_non_modifier_keys, state@.pressed_non_modifier_keys[y]));
            } else {
                assert(s1.pressed_non_modifier_keys[x] != s1.pressed_non_modifier_keys[y]);
            }
        }
        assert(crate::state::wf_state(state@));
    }
    append_input_event(state, &capture_context, 'd', shortcut_key.as_str(), modifiers, now_ms);
    update_shortcut_usage(state, &capture_context, shortcut_key.as_str(), modifiers);
    bucket_apply(state, &capture_context, minute.as_str(), at_ms);
}

/// Applies one non-modifier key-up; never gated by pause so a release
/// always cleans state.
#[verifier::rlimit(60)]
pub fn apply_non_modifier_key_up(
    state: &mut CollectorState,
    physical_key_id: &str,
    shortcut_key: &str,
    modifiers: ModifierSnapshot,
    capture_context: &CaptureContext,
    now_ms: i64,
)
    requires
        old(state).wf(),
    ensures
        final(state).wf(),
        final(state)@ == key_up_step(
            old(state)@,
            physical_key_id@,
            shortcut_key@,
            modifiers,
            capture_context@,
            now_ms as int,
        ),
{
    append_input_event(state, capture_context, 'u', shortcut_key, modifiers, now_ms);
    let ghost s1 = state@;
    let mut i: usize = 0;
    let mut found: bool = false;
    while i < state.pressed_non_modifier_keys.len()
        invariant
            state@ == s1,
            i <= state.pressed_non_modifier_keys@.len(),
            found ==> i < state.pressed_non_modifier_keys@.len() && state@.pressed_non_modifier_keys[i as int]
                == physical_key_id@,
            !found ==> forall|j: int|
                0 <= j < i ==> state@.pressed_non_modifier_keys[j] != physical_key_id@,
        ensures
            state@ == s1,
            found ==> i < state.pressed_non_modifier_keys@.len() && state@.pressed_non_modifier_keys[i as int]
                == physical_key_id@,
            !found ==> forall|j: int|
                0 <= j < state.pressed_non_modifier_keys@.len()
                    ==> state@.pressed_non_modifier_keys[j] != physical_key_id@,
        decreases state.pressed_non_modifier_keys@.len() - i,
    {
        if str_eq(state.pressed_non_modifier_keys[i].as_str(), physical_key_id) {
            found = true;
            proof {
                assert(state@.pressed_non_modifier_keys[i as int] == physical_key_id@);
            }
            break ;
        }
        proof {
            assert(state@.pressed_non_modifier_keys[i as int]
                == state.pressed_non_modifier_keys@[i as int]@);
        }
        i = i + 1;
    }
    proof {
        lemma_first_idx(s1.pressed_non_modifier_keys, physical_key_id@);
        let j = first_idx(s1.pressed_non_modifier_keys, physical_key_id@);
        if found {
            assert(j == i) by {
                if j < i {
                    assert(s1.pressed_non_modifier_keys[j] != physical_key_id@);
                }
                if j > i || j < 0 {
                    assert(s1.pressed_non_modifier_keys[i as int] == physical_key_id@);
                }
            }
        } else {
            assert(j < 0) by {
                if j >= 0 {
                    assert(s1.pressed_non_modifier_keys[j] == physical_key_id@);
                }
            }
        }
    }
    if found {
        state.pressed_non_modifier_keys.remove(i);
        proof {
            assert(state@.pressed_non_modifier_keys =~= s1.pressed_non_modifier_keys.remove(
                i as int,
            ));
        }
    }
    if state.pressed_non_modifier_keys.len() == 0 {
        state.active_stats_key = None;
    }
    proof {
        let target = key_up_step(
            old(state)@,
            physical_key_id@,
            shortcut_key@,
            modifiers,
            capture_context@,
            now_ms as int,
        );
        assert(state@ =~~= target);
        let s = state@;
        assert forall|x: int, y: int|
            #![trigger s.pressed_non_modifier_keys[x], s.pressed_non_modifier_keys[y]]
            0 <= x < y < s.pressed_non_modifier_keys.len() implies s.pressed_non_modifier_keys[x]
            != s.pressed_non_modifier_keys[y] by {
            if found {
                let p = s1.pressed_non_modifier_keys;
                assert(forall|a: int, b: int|
                    #![trigger p[a], p[b]]
                    0 <= a < b < p.len() ==> p[a] != p[b]);
            }
        }
        assert(crate::state::wf_state(state@));
    }
}

/// Accounts one tick's elapsed time to the active bucket while a key is
/// held.
pub fn accumulate_active_typing_for_tick(state: &mut CollectorState, elapsed_ms: u64, at_ms: u64)
    requires
        old(state).wf(),
    ensures
        final(state).wf(),
        final(state)@ == accumulate_spec(old(state)@, elapsed_ms, at_ms),
{
    if state.pressed_non_modifier_keys.len() == 0 {
        proof {
            assert(state@.pressed_non_modifier_keys.len() == 0);
        }
        return ;
    }
    let key = match &state.active_stats_key {
        None => {
            return ;
        },
        Some(k) => k.clone(),
    };
    let ghost pre = state@;
    let mut i: usize = 0;
    let mut found: bool = false;
    while i < state.stats.len()
        invariant
            old(state).wf(),
            state == old(state),
            i <= state.stats@.len(),
            found ==> i < state.stats@.len() && state@.stats[i as int].0 == key@,
            !found ==> forall|j: int| 0 <= j < i ==> (#[trigger] state@.stats[j]).0 != key@,
        ensures
            state == old(state),
            found ==> i < state.stats@.len() && state@.stats[i as int].0 == key@,
            !found ==> forall|j: int|
                0 <= j < state.stats@.len() ==> (#[trigger] state@.stats[j]).0 != key@,
        decreases state.stats@.len() - i,
    {
        if state.stats[i].0.key_eq(&key) {
            found = true;
            proof {
                assert(state@.stats[i as int].0 == key@);
            }
            break ;
        }
        proof {
            assert(state@.stats[i as int].0 == state.stats@[i as int].0@);
        }
        i = i + 1;
    }
    proof {
        lemma_assoc_first(pre.stats, key@);
        let j = assoc_first(pre.stats, key@);
        if found {
            assert(j == i) by {
                if j < i {
                    assert(pre.stats[j].0 != key@);
                }
                if j > i || j < 0 {
                    assert(pre.stats[i as int].0 == key@);
                }
            }
        } else {
            assert(j < 0) by {
                if j >= 0 {
                    assert(pre.stats[j].0 == key@);
                }
            }
        }
    }
    if found {
        let entry = state.stats.remove(i);
        let value = StatsValue {
            active_typing_ms: saturating_add_u64(entry.1.active_typing_ms, elapsed_ms),
            key_count: entry.1.key_count,
            session_count: entry.1.session_count,
        };
        state.stats.insert(i, (entry.0, value));
        state.last_typing_at_ms = Some(at_ms);
        proof {
            let target = accumulate_spec(pre, elapsed_ms, at_ms);
            let g = |p: (StatsKey, StatsValue)| (p.0@, p.1);
            assert(state.stats@.len() == pre.stats.len());
            assert forall|j: int| 0 <= j < pre.stats.len() implies g(#[trigger] state.stats@[j])
                == target.stats[j] by {
                if j != i {
                }
            }
            assert(state@.stats =~= target.stats);
            assert(state@ =~~= target);
            assert forall|x: int, y: int| #![trigger state@.stats[x], state@.stats[y]]
                0 <= x < y < state@.stats.len() implies state@.stats[x].0 != state@.stats[y].0 by {
                assert(pre.stats[x].0 != pre.stats[y].0);
            }
            assert(crate::state::wf_state(state@));
        }
    } else {
        let value = StatsValue { active_typing_ms: elapsed_ms, key_count: 0, session_count: 0 };
        state.stats.push((key, value));
        state.last_typing_at_ms = Some(at_ms);
        proof {
            let target = accumulate_spec(pre, elapsed_ms, at_ms);
            assert(state@.stats =~= target.stats);
            assert(state@ =~~= target);
            assert forall|x: int, y: int| #![trigger state@.stats[x], state@.stats[y]]
                0 <= x < y < state@.stats.len() implies state@.stats[x].0 != state@.stats[y].0 by {
                if y == state@.stats.len() - 1 {
                    assert(pre.stats[x].0 != pre.active_stats_key.unwrap());
                } else {
                    assert(pre.stats[x].0 != pre.stats[y].0);
                }
            }
            assert(crate::state::wf_state(state@));
        }
    }
}

/// Applies one collector event at the given wall-clock millisecond. The
/// resulting state is exactly the transition relation's image.
pub fn apply_collector_event_at(state: &mut CollectorState, event: CollectorEvent, now_ms: i64)
    requires
        old(state).wf(),
    ensures
        final(state).wf(),
        final(state)@ == collector_step(old(state)@, event@, now_ms as int),
{
    match event {
        CollectorEvent::NonModifierKeyDown {
            physical_key_id,
            shortcut_key,
            modifiers,
            is_key_combo,
            capture_context,
            minute,
            at_ms,
        } => {
            apply_non_modifier_key_down(
                state,
                physical_key_id,
                shortcut_key,
                modifiers,
                is_key_combo,
                capture_context,
                minute,
                at_ms,
                now_ms,
            );
        },
        CollectorEvent::NonModifierKeyUp {
            physical_key_id,
            shortcut_key,
            modifiers,
            capture_context,
        } => {
            apply_non_modifier_key_up(
                state,
                physical_key_id.as_str(),
                shortcut_key.as_str(),
                modifiers,
                &capture_context,
                now_ms,
            );
        },
        CollectorEvent::Tick { elapsed_ms, capture_context, at_ms } => {
            let auto = is_auto_paused(state, &capture_context);
            let reason = auto_pause_reason(state, &capture_context);
            state.auto_paused = auto;
            state.auto_pause_reason = reason;
            proof {
                assert(state@ == with_auto_pause(old(state)@, capture_context@));
            }
            if state.paused || state.auto_paused {
                reset_active_typing_state(state);
            } else {
                accumulate_active_typing_for_tick(state, elapsed_ms, at_ms);
            }
        },
    }
}

/// Applies one collector event, reading the wall clock for compact-event
/// timestamps; everything except those timestamps is determined by the
/// state and the event alone.
pub fn apply_collector_event(state: &mut CollectorState, event: CollectorEvent)
    requires
        old(state).wf(),
    ensures
        final(state).wf(),
        exists|now_ms: int|
            final(state)@ == collector_step(old(state)@, event@, now_ms),
{
    let now_ms = crate::clock::current_ts_ms();
    let ghost witness: int = now_ms as int;
    apply_collector_event_at(state, event, now_ms);
    proof {
        assert(final(state)@ == collector_step(old(state)@, event@, witness));
    }
}

} // verus!
