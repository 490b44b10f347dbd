//! Shortcut analytics: canonical shortcut ids, the admission filter, the
//! application dictionary, and the compact input-event chunk store.

use crate::codec::{compact_of, render_compact_event};
use crate::event::{app_id_from_context, app_id_of, CaptureContext, CaptureContextV};
use crate::modifier::ModifierSnapshot;
use crate::sort::views_of;
use crate::state::{
    assoc_first, lemma_assoc_first, sat_add_u32, saturating_add_u32, seq_has, CollectorState,
    CollectorStateV, InputEventChunk, InputEventChunkV, OpenInputEventChunk, OpenInputEventChunkV,
};
use crate::text::str_eq;
use vstd::prelude::*;

verus! {

/// The canonical shortcut id: present modifiers in the fixed order ctrl,
/// opt, shift, cmd, each followed by an underscore, then the key symbol.
pub open spec fn normalize_id(m: ModifierSnapshot, key: Seq<char>) -> Seq<char> {
    (if m.ctrl {
        "ctrl_"@
    } else {
        Seq::empty()
    }) + (if m.opt {
        "opt_"@
    } else {
        Seq::empty()
    }) + (if m.shift {
        "shift_"@
    } else {
        Seq::empty()
    }) + (if m.cmd {
        "cmd_"@
    } else {
        Seq::empty()
    }) + key
}

/// Builds the canonical shortcut id for a key pressed under the given
/// modifiers. Total and deterministic.
pub fn normalize_shortcut_id(modifiers: ModifierSnapshot, key: &str) -> (r: String)
    ensures
        r@ == normalize_id(modifiers, key@),
{
    let mut s = String::new();
    if modifiers.ctrl {
        s.append("ctrl_");
    }
    if modifiers.opt {
        s.append("opt_");
    }
    if modifiers.shift {
        s.append("shift_");
    }
    if modifiers.cmd {
        s.append("cmd_");
    }
    s.append(key);
    proof {
        assert(s@ =~= normalize_id(modifiers, key@));
    }
    s
}

/// Whether a string with this view occurs in the vector.
pub fn contains_str(v: &Vec<String>, x: &str) -> (r: bool)
    ensures
        r == seq_has(views_of(v@), x@),
{
    let mut i: usize = 0;
    while i < v.len()
        invariant
            i <= v@.len(),
            forall|j: int| 0 <= j < i ==> views_of(v@)[j] != x@,
        decreases v@.len() - i,
    {
        if str_eq(v[i].as_str(), x) {
            proof {
                assert(views_of(v@)[i as int] == x@);
            }
            return true;
        }
        proof {
            assert(views_of(v@)[i as int] == v@[i as int]@);
        }
        i = i + 1;
    }
    false
}

/// The admission filter: whether a key press with the given modifiers and
/// normalized id contributes to shortcut usage. The blocklist wins over
/// the allowlist; a non-empty allowlist wins over the baseline modifier
/// rules.
pub open spec fn should_count_spec(s: CollectorStateV, m: ModifierSnapshot, id: Seq<char>) -> bool {
    if seq_has(s.shortcut_blocklist, id) {
        false
    } else if s.shortcut_allowlist.len() > 0 {
        seq_has(s.shortcut_allowlist, id)
    } else if m.spec_modifier_count() < s.shortcut_min_modifiers {
        false
    } else if s.shortcut_require_cmd_or_ctrl && !m.spec_has_shortcut_modifier() {
        false
    } else if !s.shortcut_allow_alt_only && !m.ctrl && !m.cmd && m.opt && !m.shift && !m.function {
        false
    } else {
        true
    }
}

pub fn should_count_shortcut(state: &CollectorState, modifiers: ModifierSnapshot, shortcut_id: &str) -> (r:
    bool)
    ensures
        r == should_count_spec(state@, modifiers, shortcut_id@),
{
    if contains_str(&state.shortcut_blocklist, shortcut_id) {
        return false;
    }
    if state.shortcut_allowlist.len() > 0 {
        return contains_str(&state.shortcut_allowlist, shortcut_id);
    }
    if modifiers.modifier_count() < state.shortcut_min_modifiers {
        return false;
    }
    if state.shortcut_require_cmd_or_ctrl && !modifiers.has_shortcut_modifier() {
        return false;
    }
    if !state.shortcut_allow_alt_only && !modifiers.ctrl && !modifiers.cmd && modifiers.opt
        && !modifiers.shift && !modifiers.function {
        return false;
    }
    true
}

/// The state and reference number after resolving an application id:
/// an existing entry is reused; otherwise the id is registered under the
/// next free reference, unless the reference space is exhausted, in which
/// case the last reference is handed out without registration.
pub open spec fn resolve_ref_spec(s: CollectorStateV, app_id: Seq<char>) -> (CollectorStateV, u32) {
    let j = assoc_first(s.app_ref_by_app, app_id);
    if j >= 0 {
        (s, s.app_ref_by_app[j].1)
    } else if s.next_app_ref == u32::MAX {
        (s, u32::MAX)
    } else {
        let r = s.next_app_ref;
        (
            CollectorStateV {
                app_ref_by_app: s.app_ref_by_app.push((app_id, r)),
                app_dict: s.app_dict.push((r, app_id)),
                next_app_ref: sat_add_u32(r, 1),
                ..s
            },
            r,
        )
    }
}

/// Resolves the reference number of an application id, registering a new
/// dictionary entry for an unseen id.
pub fn resolve_app_ref(state: &mut CollectorState, app_id: &str) -> (r: u32)
    requires
        old(state).wf(),
    ensures
        final(state).wf(),
        (final(state)@, r) == resolve_ref_spec(old(state)@, app_id@),
{
    let ghost pre = state@;
    let mut i: usize = 0;
    while i < state.app_ref_by_app.len()
        invariant
            old(state).wf(),
            i <= state.app_ref_by_app@.len(),
            state == old(state),
            forall|j: int| 0 <= j < i ==> (#[trigger] state@.app_ref_by_app[j]).0 != app_id@,
        decreases state.app_ref_by_app@.len() - i,
    {
        if str_eq(state.app_ref_by_app[i].0.as_str(), app_id) {
            proof {
                assert(state@.app_ref_by_app[i as int].0 == app_id@);
                lemma_assoc_first(state@.app_ref_by_app, app_id@);
                let j = assoc_first(state@.app_ref_by_app, app_id@);
                assert(j >= 0);
                assert(j == i) by {
                    if j < i {
                        assert(state@.app_ref_by_app[j].0 != app_id@);
                    }
                    if j > i {
                        assert(state@.app_ref_by_app[i as int].0 != app_id@);
                    }
                }
            }
            return state.app_ref_by_app[i].1;
        }
        proof {
            assert(state@.app_ref_by_app[i as int].0 == state.app_ref_by_app@[i as int].0@);
        }
        i = i + 1;
    }
    proof {
        lemma_assoc_first(state@.app_ref_by_app, app_id@);
        assert(assoc_first(state@.app_ref_by_app, app_id@) < 0) by {
            if assoc_first(state@.app_ref_by_app, app_id@) >= 0 {
                assert(state@.app_ref_by_app[assoc_first(state@.app_ref_by_app, app_id@)].0
                    == app_id@);
            }
        }
    }
    if state.next_app_ref == u32::MAX {
        return u32::MAX;
    }
    let app_ref = state.next_app_ref;
    state.app_ref_by_app.push((String::from_str(app_id), app_ref));
    state.app_dict.push((app_ref, String::from_str(app_id)));
    state.next_app_ref = saturating_add_u32(app_ref, 1);
    proof {
        assert(state@.app_ref_by_app =~= pre.app_ref_by_app.push((app_id@, app_ref)));
        assert(state@.app_dict =~= pre.app_dict.push((app_ref, app_id@)));
        assert(state@ == resolve_ref_spec(pre, app_id@).0);
        let s = state@;
        assert forall|x: int, y: int| #![trigger s.app_dict[x], s.app_dict[y]]
            0 <= x < y < s.app_dict.len() implies s.app_dict[x].0 != s.app_dict[y].0 by {
            if y == s.app_dict.len() - 1 {
                assert(pre.app_dict[x].0 < pre.next_app_ref);
            }
        }
        assert forall|x: int, y: int| #![trigger s.app_ref_by_app[x], s.app_ref_by_app[y]]
            0 <= x < y < s.app_ref_by_app.len() implies s.app_ref_by_app[x].0
            != s.app_ref_by_app[y].0 by {
            if y == s.app_ref_by_app.len() - 1 {
                assert(pre.app_ref_by_app[x].0 != app_id@);
            }
        }
        assert(crate::state::wf_state(s));
    }
    app_ref
}

} // verus!

verus! {

/// Milliseconds elapsed between a chunk start and now, clamped below at
/// zero and above at the largest offset.
pub open spec fn dt_of(now: int, start: int) -> int {
    if now - start <= 0 {
        0
    } else if now - start > i64::MAX {
        i64::MAX as int
    } else {
        now - start
    }
}

fn compute_dt(now: i64, start: i64) -> (r: i64)
    ensures
        r == dt_of(now as int, start as int),
{
    match now.checked_sub(start) {
        Some(d) => {
            if d < 0 {
                0
            } else {
                d
            }
        },
        None => {
            if now >= 0 {
                i64::MAX
            } else {
                0
            }
        },
    }
}

fn age_at_least(now: i64, start: i64, bound: i64) -> (r: bool)
    ensures
        r == (now - start >= bound),
{
    match now.checked_sub(start) {
        Some(d) => d >= bound,
        None => now >= 0,
    }
}

/// A closed chunk appended to the ring: empty chunks are dropped, the
/// schema version is pinned, and when the ring exceeds its cap the oldest
/// chunks are dropped.
pub open spec fn push_chunk_spec(s: CollectorStateV, c: OpenInputEventChunkV) -> CollectorStateV {
    if c.events.len() == 0 {
        s
    } else {
        let grown = s.event_chunks.push(
            InputEventChunkV {
                v: 1,
                chunk_start_ms: c.chunk_start_ms,
                app_ref: c.app_ref,
                events: c.events,
            },
        );
        let capped = if grown.len() > 20000 {
            grown.skip(grown.len() - 20000)
        } else {
            grown
        };
        CollectorStateV { event_chunks: capped, ..s }
    }
}

/// Moves one finished chunk into the ring of closed chunks.
pub fn push_finished_chunk(state: &mut CollectorState, chunk: OpenInputEventChunk)
    requires
        old(state).wf(),
    ensures
        final(state).wf(),
        final(state)@ == push_chunk_spec(old(state)@, chunk@),
{
    if chunk.events.len() == 0 {
        proof {
            assert(chunk@.events.len() == 0);
        }
        return ;
    }
    let ghost pre = state@;
    state.event_chunks.push(
        InputEventChunk {
            v: 1,
            chunk_start_ms: chunk.chunk_start_ms,
            app_ref: chunk.app_ref,
            events: chunk.events,
        },
    );
    proof {
        assert(state@.event_chunks =~= pre.event_chunks.push(
            InputEventChunkV {
                v: 1,
                chunk_start_ms: chunk@.chunk_start_ms,
                app_ref: chunk@.app_ref,
                events: chunk@.events,
            },
        ));
    }
    let ghost grown = state@.event_chunks;
    let ghost mut removed: int = 0;
    proof {
        assert(state@.event_chunks =~= grown.skip(0));
        assert(state.event_chunks@.len() == grown.len());
    }
    while state.event_chunks.len() > 20000
        invariant
            state@ == (CollectorStateV { event_chunks: state@.event_chunks, ..old(state)@ }),
            0 <= removed <= grown.len(),
            state.event_chunks@.len() == grown.len() - removed,
            grown.len() > 20000 ==> state.event_chunks@.len() >= 20000,
            grown.len() <= 20000 ==> removed == 0,
            state@.event_chunks =~= grown.skip(removed),
        decreases state.event_chunks@.len(),
    {
        let ghost before = state@.event_chunks;
        state.event_chunks.remove(0);
        proof {
            assert(state@.event_chunks =~= before.drop_first());
            removed = removed + 1;
            assert(state@.event_chunks =~= grown.skip(removed));
        }
    }
    proof {
        assert(state.event_chunks@.len() <= 20000);
        if grown.len() > 20000 {
            assert(state.event_chunks@.len() == 20000);
            assert(removed == grown.len() - 20000);
            assert(state@.event_chunks =~= grown.skip(grown.len() - 20000));
        } else {
            assert(removed == 0);
            assert(state@.event_chunks =~= grown);
        }
        assert(state@ == push_chunk_spec(pre, chunk@));
    }
}

/// An open chunk older than the chunk window is closed even when no new
/// event arrives; anything younger is kept open.
pub open spec fn flush_expired_spec(s: CollectorStateV, now_ms: int) -> CollectorStateV {
    match s.open_event_chunk {
        None => s,
        Some(o) => {
            if now_ms - o.chunk_start_ms < 5000 {
                s
            } else {
                push_chunk_spec(CollectorStateV { open_event_chunk: None, ..s }, o)
            }
        },
    }
}

/// Closes the open chunk once it has reached the chunk window's age.
pub fn flush_expired_open_chunk(state: &mut CollectorState, now_ms: i64)
    requires
        old(state).wf(),
    ensures
        final(state).wf(),
        final(state)@ == flush_expired_spec(old(state)@, now_ms as int),
{
    let expired = match &state.open_event_chunk {
        None => {
            return ;
        },
        Some(o) => age_at_least(now_ms, o.chunk_start_ms, 5000),
    };
    if !expired {
        return ;
    }
    let ghost pre = state@;
    let taken = state.open_event_chunk.take();
    match taken {
        Some(chunk) => {
            proof {
                assert(state@ == (CollectorStateV { open_event_chunk: None, ..pre }));
            }
            push_finished_chunk(state, chunk);
        },
        None => {},
    }
}

/// The state after appending one compact event at wall-clock `now_ms`:
/// the context's application is resolved, the open chunk is rotated when
/// the application changed, the chunk window passed, or the chunk is full,
/// and the rendered event line is appended to the open chunk.
pub open spec fn append_event_spec(
    s: CollectorStateV,
    ctx: CaptureContextV,
    event_type: char,
    key: Seq<char>,
    m: ModifierSnapshot,
    now_ms: int,
) -> CollectorStateV {
    let (s1, app_ref) = resolve_ref_spec(s, app_id_of(ctx));
    let rotate = match s1.open_event_chunk {
        None => true,
        Some(o) => o.app_ref != app_ref || now_ms - o.chunk_start_ms >= 5000 || o.events.len()
            >= 500,
    };
    let s2 = if rotate {
        let closed = match s1.open_event_chunk {
            Some(o) => push_chunk_spec(CollectorStateV { open_event_chunk: None, ..s1 }, o),
            None => s1,
        };
        CollectorStateV {
            open_event_chunk: Some(
                OpenInputEventChunkV {
                    chunk_start_ms: now_ms as i64,
                    app_ref,
                    events: Seq::empty(),
                },
            ),
            ..closed
        }
    } else {
        s1
    };
    match s2.open_event_chunk {
        Some(o) => CollectorStateV {
            open_event_chunk: Some(
                OpenInputEventChunkV {
                    events: o.events.push(
                        compact_of(
                            dt_of(now_ms, o.chunk_start_ms as int),
                            event_type,
                            key,
                            m.spec_bitmask(),
                        ),
                    ),
                    ..o
                },
            ),
            ..s2
        },
        None => s2,
    }
}

/// Appends one compact input event, rotating the open chunk as the chunk
/// policy demands. `now_ms` must not precede the rotation instant used for
/// a fresh chunk; the rendered offset is clamped at zero regardless.
#[verifier::rlimit(60)]
pub fn append_input_event(
    state: &mut CollectorState,
    capture_context: &CaptureContext,
    event_type: char,
    key: &str,
    modifiers: ModifierSnapshot,
    now_ms: i64,
)
    requires
        old(state).wf(),
    ensures
        final(state).wf(),
        final(state)@ == append_event_spec(
            old(state)@,
            capture_context@,
            event_type,
            key@,
            modifiers,
            now_ms as int,
        ),
{
    let app_id = app_id_from_context(capture_context);
    let app_ref = resolve_app_ref(state, app_id.as_str());
    let ghost s1 = state@;
    let rotate = match &state.open_event_chunk {
        None => true,
        Some(o) => o.app_ref != app_ref || age_at_least(now_ms, o.chunk_start_ms, 5000)
            || o.events.len() >= 500,
    };
    if rotate {
        let taken = state.open_event_chunk.take();
        match taken {
            Some(chunk) => {
                proof {
                    assert(state@ == (CollectorStateV { open_event_chunk: None, ..s1 }));
                }
                push_finished_chunk(state, chunk);
            },
            None => {},
        }
        state.open_event_chunk = Some(
            OpenInputEventChunk { chunk_start_ms: now_ms, app_ref, events: Vec::new() },
        );
        proof {
            assert(state@.open_event_chunk == Some(
                OpenInputEventChunkV {
                    chunk_start_ms: now_ms,
                    app_ref,
                    events: Seq::<Seq<char>>::empty(),
                },
            )) by {
                assert(views_of(Seq::<String>::empty()) =~= Seq::<Seq<char>>::empty());
            }
        }
    }
    let ghost s2 = state@;
    let taken = state.open_event_chunk.take();
    match taken {
        Some(mut open) => {
            let dt = compute_dt(now_ms, open.chunk_start_ms);
            let line = render_compact_event(dt, event_type, key, modifiers.bitmask());
            let ghost pre_events = open@.events;
            open.events.push(line);
            proof {
                assert(open@.events =~= pre_events.push(line@));
            }
            state.open_event_chunk = Some(open);
            proof {
                assert(state@ == append_event_spec(
                    old(state)@,
                    capture_context@,
                    event_type,
                    key@,
                    modifiers,
                    now_ms as int,
                ));
            }
        },
        None => {
            proof {
                assert(false);
            }
        },
    }
}

} // verus!

verus! {

/// One more use of a shortcut attributed to an application: an existing
/// per-application counter is bumped, a first use is recorded with count
/// one.
pub open spec fn bump_app(b: Seq<(Seq<char>, u64)>, app: Seq<char>) -> Seq<(Seq<char>, u64)> {
    let k = assoc_first(b, app);
    if k < 0 {
        b.push((app, 1u64))
    } else {
        b.update(k, (app, crate::state::sat_add_u64(b[k].1, 1)))
    }
}

/// The state after counting one key press toward shortcut usage: nothing
/// changes when the admission filter rejects the press; otherwise the
/// aggregate of the normalized id gains one use, attributed to the
/// context's application.
pub open spec fn update_usage_spec(
    s: CollectorStateV,
    ctx: CaptureContextV,
    key: Seq<char>,
    m: ModifierSnapshot,
) -> CollectorStateV {
    let id = normalize_id(m, key);
    if !should_count_spec(s, m, id) {
        s
    } else {
        let app = app_id_of(ctx);
        let j = assoc_first(s.shortcut_usage, id);
        if j < 0 {
            CollectorStateV {
                shortcut_usage: s.shortcut_usage.push(
                    (id, crate::state::ShortcutUsageV { count: 1, by_app: seq![(app, 1u64)] }),
                ),
                ..s
            }
        } else {
            let u = s.shortcut_usage[j].1;
            CollectorStateV {
                shortcut_usage: s.shortcut_usage.update(
                    j,
                    (
                        id,
                        crate::state::ShortcutUsageV {
                            count: crate::state::sat_add_u64(u.count, 1),
                            by_app: bump_app(u.by_app, app),
                        },
                    ),
                ),
                ..s
            }
        }
    }
}

/// Counts one key press toward shortcut usage if the admission filter
/// accepts its normalized id.
#[verifier::rlimit(80)]
pub fn update_shortcut_usage(
    state: &mut CollectorState,
    capture_context: &CaptureContext,
    key: &str,
    modifiers: ModifierSnapshot,
)
    requires
        old(state).wf(),
    ensures
        final(state).wf(),
        final(state)@ == update_usage_spec(old(state)@, capture_context@, key@, modifiers),
{
    let shortcut_id = normalize_shortcut_id(modifiers, key);
    if !should_count_shortcut(state, modifiers, shortcut_id.as_str()) {
        return ;
    }
    let app_id = app_id_from_context(capture_context);
    let mut i: usize = 0;
    let mut found: bool = false;
    while i < state.shortcut_usage.len()
        invariant
            old(state).wf(),
            state == old(state),
            i <= state.shortcut_usage@.len(),
            found ==> i < state.shortcut_usage@.len() && state@.shortcut_usage[i as int].0
                == shortcut_id@,
            !found ==> forall|j: int|
                0 <= j < i ==> (#[trigger] state@.shortcut_usage[j]).0 != shortcut_id@,
        ensures
            state == old(state),
            found ==> i < state.shortcut_usage@.len() && state@.shortcut_usage[i as int].0
                == shortcut_id@,
            !found ==> forall|j: int|
                0 <= j < state.shortcut_usage@.len() ==> (#[trigger] state@.shortcut_usage[j]).0
                    != shortcut_id@,
        decreases state.shortcut_usage@.len() - i,
    {
        if str_eq(state.shortcut_usage[i].0.as_str(), shortcut_id.as_str()) {
            found = true;
            proof {
                assert(state@.shortcut_usage[i as int].0 == shortcut_id@);
            }
            break ;
        }
        proof {
            assert(state@.shortcut_usage[i as int].0 == state.shortcut_usage@[i as int].0@);
        }
        i = i + 1;
    }
    let ghost pre = state@;
    let ghost id = shortcut_id@;
    if found {
        proof {
            lemma_assoc_first(pre.shortcut_usage, id);
            let j = assoc_first(pre.shortcut_usage, id);
            assert(j == i) by {
                if j < i {
                    assert(pre.shortcut_usage[j].0 != id);
                }
                if j > i || j < 0 {
                    assert(pre.shortcut_usage[i as int].0 == id);
                }
            }
        }
        let ghost pre_usage_vec = state.shortcut_usage@;
        let mut entry = state.shortcut_usage.remove(i);
        let ghost pre_count = entry.1.count;
        entry.1.count = crate::state::saturating_add_u64(entry.1.count, 1);
        let ghost pre_by_app = entry.1.by_app@.map_values(|p: (String, u64)| (p.0@, p.1));
        let mut k: usize = 0;
        let mut app_found: bool = false;
        while k < entry.1.by_app.len()
            invariant
                k <= entry.1.by_app@.len(),
                pre_by_app == entry.1.by_app@.map_values(|p: (String, u64)| (p.0@, p.1)),
                app_found ==> k < entry.1.by_app@.len() && pre_by_app[k as int].0 == app_id@,
                !app_found ==> forall|j: int| 0 <= j < k ==> (#[trigger] pre_by_app[j]).0 != app_id@,
            ensures
                pre_by_app == entry.1.by_app@.map_values(|p: (String, u64)| (p.0@, p.1)),
                app_found ==> k < entry.1.by_app@.len() && pre_by_app[k as int].0 == app_id@,
                !app_found ==> forall|j: int|
                    0 <= j < pre_by_app.len() ==> (#[trigger] pre_by_app[j]).0 != app_id@,
            decreases entry.1.by_app@.len() - k,
        {
            if str_eq(entry.1.by_app[k].0.as_str(), app_id.as_str()) {
                app_found = true;
                proof {
                    assert(pre_by_app[k as int].0 == app_id@);
                }
                break ;
            }
            proof {
                assert(pre_by_app[k as int].0 == entry.1.by_app@[k as int].0@);
            }
            k = k + 1;
        }
        proof {
            lemma_assoc_first(pre_by_app, app_id@);
            let ka = assoc_first(pre_by_app, app_id@);
            if app_found {
                assert(ka == k) by {
                    if ka < k {
                        assert(pre_by_app[ka].0 != app_id@);
                    }
                    if ka > k || ka < 0 {
                        assert(pre_by_app[k as int].0 == app_id@);
                    }
                }
            } else {
                assert(ka < 0) by {
                    if ka >= 0 {
                        assert(pre_by_app[ka].0 == app_id@);
                    }
                }
            }
        }
        if app_found {
            let ghost pre_vec = entry.1.by_app@;
            let pair = entry.1.by_app.remove(k);
            let bumped = crate::state::saturating_add_u64(pair.1, 1);
            entry.1.by_app.insert(k, (pair.0, bumped));
            proof {
                let f = |p: (String, u64)| (p.0@, p.1);
                assert(pre_by_app.len() == pre_vec.len());
                assert(entry.1.by_app@.len() == pre_vec.len());
                let nb = bump_app(pre_by_app, app_id@);
                assert(nb == pre_by_app.update(k as int, (app_id@, crate::state::sat_add_u64(
                    pre_by_app[k as int].1,
                    1,
                ))));
                assert(pair == pre_vec[k as int]);
                assert forall|j: int| 0 <= j < pre_vec.len() implies f(
                    #[trigger] entry.1.by_app@[j],
                ) == nb[j] by {
                    if j != k {
                        assert(entry.1.by_app@[j] == pre_vec[j]);
                        assert(f(pre_vec[j]) == pre_by_app[j]);
                    } else {
                        assert(entry.1.by_app@[j] == (pair.0, bumped));
                        assert(f(pre_vec[k as int]) == pre_by_app[k as int]);
                    }
                }
                assert(entry.1.by_app@.map_values(f) =~= nb);
            }
        } else {
            entry.1.by_app.push((String::from_str(app_id.as_str()), 1u64));
            proof {
                assert(entry.1.by_app@.map_values(|p: (String, u64)| (p.0@, p.1)) =~= bump_app(
                    pre_by_app,
                    app_id@,
                ));
            }
        }
        state.shortcut_usage.insert(i, entry);
        proof {
            let updated = update_usage_spec(pre, capture_context@, key@, modifiers);
            let g = |p: (String, crate::state::ShortcutUsageValue)| (p.0@, p.1@);
            assert(state.shortcut_usage@.len() == pre_usage_vec.len());
            assert(pre.shortcut_usage.len() == pre_usage_vec.len());
            assert forall|j: int| 0 <= j < pre_usage_vec.len() implies g(
                #[trigger] state.shortcut_usage@[j],
            ) == updated.shortcut_usage[j] by {
                if j != i {
                    assert(state.shortcut_usage@[j] == pre_usage_vec[j]);
                    assert(g(pre_usage_vec[j]) == pre.shortcut_usage[j]);
                } else {
                    assert(state.shortcut_usage@[j] == entry);
                    assert(entry.0@ == id);
                    assert(entry.1@.count == crate::state::sat_add_u64(pre_count, 1));
                    assert(pre_count == pre.shortcut_usage[i as int].1.count) by {
                        assert(g(pre_usage_vec[i as int]) == pre.shortcut_usage[i as int]);
                    }
                    assert(entry.1@.by_app == bump_app(pre.shortcut_usage[i as int].1.by_app, app_id@))
                        by {
                        assert(g(pre_usage_vec[i as int]) == pre.shortcut_usage[i as int]);
                    }
                }
            }
            assert(state@.shortcut_usage =~= updated.shortcut_usage);
            assert(state@ == updated);
            lemma_usage_update_wf(pre, state@, i as int);
        }
    } else {
        proof {
            lemma_assoc_first(pre.shortcut_usage, id);
            assert(assoc_first(pre.shortcut_usage, id) < 0) by {
                if assoc_first(pre.shortcut_usage, id) >= 0 {
                    assert(pre.shortcut_usage[assoc_first(pre.shortcut_usage, id)].0 == id);
                }
            }
        }
        let mut by_app: Vec<(String, u64)> = Vec::new();
        by_app.push((String::from_str(app_id.as_str()), 1u64));
        let usage = crate::state::ShortcutUsageValue { count: 1, by_app };
        proof {
            assert(usage@.by_app =~= seq![(app_id@, 1u64)]);
        }
        state.shortcut_usage.push((shortcut_id, usage));
        proof {
            let updated = update_usage_spec(pre, capture_context@, key@, modifiers);
            assert(state@.shortcut_usage =~= updated.shortcut_usage);
            assert(state@ == updated);
            let s = state@;
            assert forall|x: int, y: int| #![trigger s.shortcut_usage[x], s.shortcut_usage[y]]
                0 <= x < y < s.shortcut_usage.len() implies s.shortcut_usage[x].0
                != s.shortcut_usage[y].0 by {
                if y == s.shortcut_usage.len() - 1 {
                    assert(pre.shortcut_usage[x].0 != id);
                }
            }
            assert forall|x: int|
                0 <= x < s.shortcut_usage.len() implies crate::state::distinct_keys(
                (#[trigger] s.shortcut_usage[x]).1.by_app,
            ) by {
                if x < s.shortcut_usage.len() - 1 {
                    assert(s.shortcut_usage[x] == pre.shortcut_usage[x]);
                    assert(crate::state::distinct_keys(pre.shortcut_usage[x].1.by_app));
                }
            }
            assert(crate::state::wf_state(state@));
        }
    }
}

proof fn lemma_usage_update_wf(pre: CollectorStateV, post: CollectorStateV, j: int)
    requires
        crate::state::wf_state(pre),
        0 <= j < pre.shortcut_usage.len(),
        post.shortcut_usage.len() == pre.shortcut_usage.len(),
        forall|x: int|
            0 <= x < pre.shortcut_usage.len() && x != j ==> #[trigger] post.shortcut_usage[x]
                == pre.shortcut_usage[x],
        post.shortcut_usage[j].0 == pre.shortcut_usage[j].0,
        post.shortcut_usage[j].1.by_app == bump_app(
            pre.shortcut_usage[j].1.by_app,
            post.shortcut_usage[j].1.by_app.last().0,
        ) || crate::state::distinct_keys(post.shortcut_usage[j].1.by_app),
        post == (CollectorStateV { shortcut_usage: post.shortcut_usage, ..pre }),
    ensures
        crate::state::wf_state(post),
{
    assert forall|x: int, y: int| #![trigger post.shortcut_usage[x], post.shortcut_usage[y]]
        0 <= x < y < post.shortcut_usage.len() implies post.shortcut_usage[x].0
        != post.shortcut_usage[y].0 by {
        assert(pre.shortcut_usage[x].0 != pre.shortcut_usage[y].0);
    }
    assert forall|x: int|
        0 <= x < post.shortcut_usage.len() implies crate::state::distinct_keys(
        (#[trigger] post.shortcut_usage[x]).1.by_app,
    ) by {
        if x != j {
            assert(post.shortcut_usage[x] == pre.shortcut_usage[x]);
            assert(crate::state::distinct_keys(pre.shortcut_usage[x].1.by_app));
        } else {
            assert(crate::state::distinct_keys(pre.shortcut_usage[j].1.by_app));
            let b = pre.shortcut_usage[j].1.by_app;
            let nb = post.shortcut_usage[j].1.by_app;
            if nb == bump_app(b, nb.last().0) {
                lemma_bump_app_distinct(b, nb.last().0);
            }
        }
    }
}

/// Bumping a per-application counter keeps the application keys distinct.
pub proof fn lemma_bump_app_distinct(b: Seq<(Seq<char>, u64)>, app: Seq<char>)
    requires
        crate::state::distinct_keys(b),
    ensures
        crate::state::distinct_keys(bump_app(b, app)),
{
    lemma_assoc_first(b, app);
    let k = assoc_first(b, app);
    let nb = bump_app(b, app);
    if k < 0 {
        assert forall|x: int, y: int| #![trigger nb[x], nb[y]] 0 <= x < y < nb.len() implies nb[x].0
            != nb[y].0 by {
            if y == nb.len() - 1 {
                assert(b[x].0 != app);
            } else {
                assert(b[x].0 != b[y].0);
            }
        }
    } else {
        assert forall|x: int, y: int| #![trigger nb[x], nb[y]] 0 <= x < y < nb.len() implies nb[x].0
            != nb[y].0 by {
            assert(b[x].0 != b[y].0);
        }
    }
}

} // verus!

verus! {

/// App-level usage count for one shortcut in the snapshot payload.
pub struct ShortcutAppUsageRow {
    pub app_name: String,
    pub count: u64,
}

/// Ghost image of a `ShortcutAppUsageRow`.
pub struct ShortcutAppUsageRowV {
    pub app_name: Seq<char>,
    pub count: u64,
}

impl View for ShortcutAppUsageRow {
    type V = ShortcutAppUsageRowV;

    open spec fn view(&self) -> ShortcutAppUsageRowV {
        ShortcutAppUsageRowV { app_name: self.app_name@, count: self.count }
    }
}

impl Clone for ShortcutAppUsageRow {
    fn clone(&self) -> (r: Self)
        ensures
            r@ == self@,
    {
        ShortcutAppUsageRow { app_name: self.app_name.clone(), count: self.count }
    }
}

impl crate::sort::SortOrder for ShortcutAppUsageRow {
    open spec fn leq(a: ShortcutAppUsageRowV, b: ShortcutAppUsageRowV) -> bool {
        if a.count != b.count {
            a.count > b.count
        } else {
            crate::text::lex_le(a.app_name, b.app_name)
        }
    }

    fn leq_exec(&self, other: &Self) -> (r: bool) {
        if self.count != other.count {
            self.count > other.count
        } else {
            crate::text::str_le(self.app_name.as_str(), other.app_name.as_str())
        }
    }

    proof fn lemma_leq_total(a: ShortcutAppUsageRowV, b: ShortcutAppUsageRowV) {
        if a.count == b.count {
            crate::text::lemma_lex_le_total(a.app_name, b.app_name);
        }
    }

    proof fn lemma_leq_trans(a: ShortcutAppUsageRowV, b: ShortcutAppUsageRowV, c: ShortcutAppUsageRowV) {
        if a.count == b.count && b.count == c.count {
            crate::text::lemma_lex_le_trans(a.app_name, b.app_name, c.app_name);
        }
    }
}

/// One shortcut leaderboard row: total count and its top applications.
pub struct ShortcutStatRow {
    pub shortcut_id: String,
    pub count: u64,
    pub apps: Vec<ShortcutAppUsageRow>,
}

/// Ghost image of a `ShortcutStatRow`.
pub struct ShortcutStatRowV {
    pub shortcut_id: Seq<char>,
    pub count: u64,
    pub apps: Seq<ShortcutAppUsageRowV>,
}

impl View for ShortcutStatRow {
    type V = ShortcutStatRowV;

    open spec fn view(&self) -> ShortcutStatRowV {
        ShortcutStatRowV {
            shortcut_id: self.shortcut_id@,
            count: self.count,
            apps: views_of(self.apps@),
        }
    }
}

impl crate::sort::SortOrder for ShortcutStatRow {
    open spec fn leq(a: ShortcutStatRowV, b: ShortcutStatRowV) -> bool {
        if a.count != b.count {
            a.count > b.count
        } else {
            crate::text::lex_le(a.shortcut_id, b.shortcut_id)
        }
    }

    fn leq_exec(&self, other: &Self) -> (r: bool) {
        if self.count != other.count {
            self.count > other.count
        } else {
            crate::text::str_le(self.shortcut_id.as_str(), other.shortcut_id.as_str())
        }
    }

    proof fn lemma_leq_total(a: ShortcutStatRowV, b: ShortcutStatRowV) {
        if a.count == b.count {
            crate::text::lemma_lex_le_total(a.shortcut_id, b.shortcut_id);
        }
    }

    proof fn lemma_leq_trans(a: ShortcutStatRowV, b: ShortcutStatRowV, c: ShortcutStatRowV) {
        if a.count == b.count && b.count == c.count {
            crate::text::lemma_lex_le_trans(a.shortcut_id, b.shortcut_id, c.shortcut_id);
        }
    }
}

/// The application rows of one shortcut: per-application counts sorted by
/// descending count then ascending name, truncated to the eight largest.
pub open spec fn app_rows_of(by_app: Seq<(Seq<char>, u64)>) -> Seq<ShortcutAppUsageRowV> {
    let rows = by_app.map_values(
        |p: (Seq<char>, u64)| ShortcutAppUsageRowV { app_name: p.0, count: p.1 },
    );
    let sorted = crate::sort::sort_by_stable(
        rows,
        |a: ShortcutAppUsageRowV, b: ShortcutAppUsageRowV| <ShortcutAppUsageRow as crate::sort::SortOrder>::leq(a, b),
    );
    sorted.subrange(
        0,
        if sorted.len() > 8 {
            8
        } else {
            sorted.len() as int
        },
    )
}

/// The leaderboard of a usage table: one row per shortcut id, sorted by
/// descending count then ascending id.
pub open spec fn shortcut_rows_of(usage: Seq<(Seq<char>, crate::state::ShortcutUsageV)>) -> Seq<
    ShortcutStatRowV,
> {
    let rows = usage.map_values(
        |p: (Seq<char>, crate::state::ShortcutUsageV)| ShortcutStatRowV {
            shortcut_id: p.0,
            count: p.1.count,
            apps: app_rows_of(p.1.by_app),
        },
    );
    crate::sort::sort_by_stable(
        rows,
        |a: ShortcutStatRowV, b: ShortcutStatRowV| <ShortcutStatRow as crate::sort::SortOrder>::leq(a, b),
    )
}

/// Builds the application rows of one usage entry.
fn build_app_rows(by_app: &Vec<(String, u64)>) -> (r: Vec<ShortcutAppUsageRow>)
    ensures
        views_of(r@) == app_rows_of(by_app@.map_values(|p: (String, u64)| (p.0@, p.1))),
{
    let ghost f = |p: (String, u64)| (p.0@, p.1);
    let ghost rowv = |p: (Seq<char>, u64)| ShortcutAppUsageRowV { app_name: p.0, count: p.1 };
    let mut rows: Vec<ShortcutAppUsageRow> = Vec::new();
    let mut i: usize = 0;
    proof {
        assert(views_of(rows@) =~= by_app@.subrange(0, 0).map_values(f).map_values(rowv));
    }
    while i < by_app.len()
        invariant
            f == (|p: (String, u64)| (p.0@, p.1)),
            rowv == (|p: (Seq<char>, u64)| ShortcutAppUsageRowV { app_name: p.0, count: p.1 }),
            i <= by_app@.len(),
            views_of(rows@) == by_app@.subrange(0, i as int).map_values(f).map_values(rowv),
        decreases by_app@.len() - i,
    {
        let ghost pre = rows@;
        rows.push(ShortcutAppUsageRow { app_name: by_app[i].0.clone(), count: by_app[i].1 });
        proof {
            assert(pre.len() == i) by {
                assert(views_of(pre).len() == pre.len());
            }
            assert forall|k: int| 0 <= k < i + 1 implies views_of(rows@)[k] == by_app@.subrange(
                0,
                i + 1,
            ).map_values(f).map_values(rowv)[k] by {
                if k < i {
                    assert(views_of(pre)[k] == by_app@.subrange(0, i as int).map_values(
                        f,
                    ).map_values(rowv)[k]);
                }
            }
            assert(views_of(rows@) =~= by_app@.subrange(0, i + 1).map_values(f).map_values(rowv));
        }
        i = i + 1;
    }
    proof {
        assert(by_app@.subrange(0, by_app@.len() as int) =~= by_app@);
    }
    let mut sorted = crate::sort::sort_vec(rows);
    proof {
        assert((|a: ShortcutAppUsageRowV, b: ShortcutAppUsageRowV|
            <ShortcutAppUsageRow as crate::sort::SortOrder>::leq(a, b)) =~= (
        |a: ShortcutAppUsageRowV, b: ShortcutAppUsageRowV| <ShortcutAppUsageRow as crate::sort::SortOrder>::leq(a, b)));
    }
    let ghost full = views_of(sorted@);
    if sorted.len() > 8 {
        sorted.truncate(8);
        proof {
            assert(views_of(sorted@) =~= full.subrange(0, 8));
        }
    } else {
        proof {
            assert(views_of(sorted@) =~= full.subrange(0, full.len() as int));
        }
    }
    proof {
        assert(by_app@.map_values(f).map_values(rowv) == by_app@.map_values(f).map_values(
            |p: (Seq<char>, u64)| ShortcutAppUsageRowV { app_name: p.0, count: p.1 },
        ));
    }
    sorted
}

/// Builds the leaderboard rows of one usage table.
fn build_shortcut_rows(usage: &Vec<(String, crate::state::ShortcutUsageValue)>) -> (r: Vec<
    ShortcutStatRow,
>)
    ensures
        views_of(r@) == shortcut_rows_of(
            usage@.map_values(|p: (String, crate::state::ShortcutUsageValue)| (p.0@, p.1@)),
        ),
{
    let ghost g = |p: (String, crate::state::ShortcutUsageValue)| (p.0@, p.1@);
    let ghost rowv = |p: (Seq<char>, crate::state::ShortcutUsageV)| ShortcutStatRowV {
        shortcut_id: p.0,
        count: p.1.count,
        apps: app_rows_of(p.1.by_app),
    };
    let mut rows: Vec<ShortcutStatRow> = Vec::new();
    let mut i: usize = 0;
    proof {
        assert(views_of(rows@) =~= usage@.subrange(0, 0).map_values(g).map_values(rowv));
    }
    while i < usage.len()
        invariant
            g == (|p: (String, crate::state::ShortcutUsageValue)| (p.0@, p.1@)),
            rowv == (|p: (Seq<char>, crate::state::ShortcutUsageV)| ShortcutStatRowV {
                shortcut_id: p.0,
                count: p.1.count,
                apps: app_rows_of(p.1.by_app),
            }),
            i <= usage@.len(),
            views_of(rows@) == usage@.subrange(0, i as int).map_values(g).map_values(rowv),
        decreases usage@.len() - i,
    {
        let ghost pre = rows@;
        let apps = build_app_rows(&usage[i].1.by_app);
        rows.push(
            ShortcutStatRow { shortcut_id: usage[i].0.clone(), count: usage[i].1.count, apps },
        );
        proof {
            assert(pre.len() == i) by {
                assert(views_of(pre).len() == pre.len());
            }
            assert forall|k: int| 0 <= k < i + 1 implies views_of(rows@)[k] == usage@.subrange(
                0,
                i + 1,
            ).map_values(g).map_values(rowv)[k] by {
                if k < i {
                    assert(views_of(pre)[k] == usage@.subrange(0, i as int).map_values(
                        g,
                    ).map_values(rowv)[k]);
                }
            }
            assert(views_of(rows@) =~= usage@.subrange(0, i + 1).map_values(g).map_values(rowv));
        }
        i = i + 1;
    }
    proof {
        assert(usage@.subrange(0, usage@.len() as int) =~= usage@);
    }
    let sorted = crate::sort::sort_vec(rows);
    proof {
        assert((|a: ShortcutStatRowV, b: ShortcutStatRowV|
            <ShortcutStatRow as crate::sort::SortOrder>::leq(a, b)) =~= (
        |a: ShortcutStatRowV, b: ShortcutStatRowV| <ShortcutStatRow as crate::sort::SortOrder>::leq(a, b)));
        assert(usage@.map_values(g).map_values(rowv) == usage@.map_values(g).map_values(
            |p: (Seq<char>, crate::state::ShortcutUsageV)| ShortcutStatRowV {
                shortcut_id: p.0,
                count: p.1.count,
                apps: app_rows_of(p.1.by_app),
            },
        ));
    }
    sorted
}

/// The leaderboard of the live usage table, sorted by frequency.
pub fn snapshot_shortcut_rows(state: &CollectorState) -> (r: Vec<ShortcutStatRow>)
    ensures
        views_of(r@) == shortcut_rows_of(state@.shortcut_usage),
{
    build_shortcut_rows(&state.shortcut_usage)
}

} // verus!

verus! {

/// A usage table with one more use of `id`, attributed to `app`.
pub open spec fn bump_usage(
    acc: Seq<(Seq<char>, crate::state::ShortcutUsageV)>,
    id: Seq<char>,
    app: Seq<char>,
) -> Seq<(Seq<char>, crate::state::ShortcutUsageV)> {
    let j = assoc_first(acc, id);
    if j < 0 {
        acc.push((id, crate::state::ShortcutUsageV { count: 1, by_app: seq![(app, 1u64)] }))
    } else {
        acc.update(
            j,
            (
                id,
                crate::state::ShortcutUsageV {
                    count: crate::state::sat_add_u64(acc[j].1.count, 1),
                    by_app: bump_app(acc[j].1.by_app, app),
                },
            ),
        )
    }
}

/// Bumping a usage table keeps it well-formed.
pub proof fn lemma_bump_usage_wf(
    acc: Seq<(Seq<char>, crate::state::ShortcutUsageV)>,
    id: Seq<char>,
    app: Seq<char>,
)
    requires
        crate::state::usage_wf(acc),
    ensures
        crate::state::usage_wf(bump_usage(acc, id, app)),
{
    lemma_assoc_first(acc, id);
    let j = assoc_first(acc, id);
    let nb = bump_usage(acc, id, app);
    if j < 0 {
        assert forall|x: int, y: int| #![trigger nb[x], nb[y]] 0 <= x < y < nb.len() implies nb[x].0
            != nb[y].0 by {
            if y == nb.len() - 1 {
                assert(acc[x].0 != id);
            } else {
                assert(acc[x].0 != acc[y].0);
            }
        }
        assert forall|i: int|
            0 <= i < nb.len() implies crate::state::distinct_keys((#[trigger] nb[i]).1.by_app) by {
            if i < nb.len() - 1 {
                assert(nb[i] == acc[i]);
                assert(crate::state::distinct_keys(acc[i].1.by_app));
            }
        }
    } else {
        assert forall|x: int, y: int| #![trigger nb[x], nb[y]] 0 <= x < y < nb.len() implies nb[x].0
            != nb[y].0 by {
            assert(acc[x].0 != acc[y].0);
        }
        assert forall|i: int|
            0 <= i < nb.len() implies crate::state::distinct_keys((#[trigger] nb[i]).1.by_app) by {
            assert(crate::state::distinct_keys(acc[i].1.by_app));
            if i == j {
                lemma_bump_app_distinct(acc[j].1.by_app, app);
            }
        }
    }
}

/// Adds one use of `id` under `app` to a local usage table.
#[verifier::rlimit(80)]
fn bump_usage_vec(acc: &mut Vec<(String, crate::state::ShortcutUsageValue)>, id: &str, app_id: &str)
    requires
        crate::state::usage_wf(crate::state::usage_views(old(acc)@)),
    ensures
        crate::state::usage_views(final(acc)@) == bump_usage(
            crate::state::usage_views(old(acc)@),
            id@,
            app_id@,
        ),
        crate::state::usage_wf(crate::state::usage_views(final(acc)@)),
{
    let ghost pre = crate::state::usage_views(acc@);
    let mut i: usize = 0;
    let mut found: bool = false;
    while i < acc.len()
        invariant
            acc == old(acc),
            i <= acc@.len(),
            found ==> i < acc@.len() && crate::state::usage_views(acc@)[i as int].0 == id@,
            !found ==> forall|j: int|
                0 <= j < i ==> (#[trigger] crate::state::usage_views(acc@)[j]).0 != id@,
        ensures
            acc == old(acc),
            found ==> i < acc@.len() && crate::state::usage_views(acc@)[i as int].0 == id@,
            !found ==> forall|j: int|
                0 <= j < acc@.len() ==> (#[trigger] crate::state::usage_views(acc@)[j]).0 != id@,
        decreases acc@.len() - i,
    {
        if str_eq(acc[i].0.as_str(), id) {
            found = true;
            proof {
                assert(crate::state::usage_views(acc@)[i as int].0 == id@);
            }
            break ;
        }
        proof {
            assert(crate::state::usage_views(acc@)[i as int].0 == acc@[i as int].0@);
        }
        i = i + 1;
    }
    proof {
        lemma_assoc_first(pre, id@);
        let j = assoc_first(pre, id@);
        if found {
            assert(j == i) by {
                if j < i {
                    assert(pre[j].0 != id@);
                }
                if j > i || j < 0 {
                    assert(pre[i as int].0 == id@);
                }
            }
        } else {
            assert(j < 0) by {
                if j >= 0 {
                    assert(pre[j].0 == id@);
                }
            }
        }
    }
    if found {
        let mut entry = acc.remove(i);
        let ghost pre_count = entry.1.count;
        entry.1.count = crate::state::saturating_add_u64(entry.1.count, 1);
        let ghost pre_by_app = entry.1.by_app@.map_values(|p: (String, u64)| (p.0@, p.1));
        proof {
            assert(pre_by_app == pre[i as int].1.by_app) by {
                assert(crate::state::usage_views(old(acc)@)[i as int]
                    == (old(acc)@[i as int].0@, old(acc)@[i as int].1@));
            }
            assert(pre_count == pre[i as int].1.count) by {
                assert(crate::state::usage_views(old(acc)@)[i as int]
                    == (old(acc)@[i as int].0@, old(acc)@[i as int].1@));
            }
        }
        let mut k: usize = 0;
        let mut app_found: bool = false;
        while k < entry.1.by_app.len()
            invariant
                k <= entry.1.by_app@.len(),
                pre_by_app == entry.1.by_app@.map_values(|p: (String, u64)| (p.0@, p.1)),
                app_found ==> k < entry.1.by_app@.len() && pre_by_app[k as int].0 == app_id@,
                !app_found ==> forall|j: int|
                    0 <= j < k ==> (#[trigger] pre_by_app[j]).0 != app_id@,
            ensures
                pre_by_app == entry.1.by_app@.map_values(|p: (String, u64)| (p.0@, p.1)),
                app_found ==> k < entry.1.by_app@.len() && pre_by_app[k as int].0 == app_id@,
                !app_found ==> forall|j: int|
                    0 <= j < pre_by_app.len() ==> (#[trigger] pre_by_app[j]).0 != app_id@,
            decreases entry.1.by_app@.len() - k,
        {
            if str_eq(entry.1.by_app[k].0.as_str(), app_id) {
                app_found = true;
                proof {
                    assert(pre_by_app[k as int].0 == app_id@);
                }
                break ;
            }
            proof {
                assert(pre_by_app[k as int].0 == entry.1.by_app@[k as int].0@);
            }
            k = k + 1;
        }
        proof {
            lemma_assoc_first(pre_by_app, app_id@);
            let ka = assoc_first(pre_by_app, app_id@);
            if app_found {
                assert(ka == k) by {
                    if ka < k {
                        assert(pre_by_app[ka].0 != app_id@);
                    }
                    if ka > k || ka < 0 {
                        assert(pre_by_app[k as int].0 == app_id@);
                    }
                }
            } else {
                assert(ka < 0) by {
                    if ka >= 0 {
                        assert(pre_by_app[ka].0 == app_id@);
                    }
                }
            }
        }
        if app_found {
            let ghost pre_vec = entry.1.by_app@;
            let pair = entry.1.by_app.remove(k);
            let bumped = crate::state::saturating_add_u64(pair.1, 1);
            entry.1.by_app.insert(k, (pair.0, bumped));
            proof {
                let f = |p: (String, u64)| (p.0@, p.1);
                assert(pre_by_app.len() == pre_vec.len());
                assert(entry.1.by_app@.len() == pre_vec.len());
                let nb = bump_app(pre_by_app, app_id@);
                assert(nb == pre_by_app.update(
                    k as int,
                    (app_id@, crate::state::sat_add_u64(pre_by_app[k as int].1, 1)),
                ));
                assert(pair == pre_vec[k as int]);
                assert forall|j: int| 0 <= j < pre_vec.len() implies f(
                    #[trigger] entry.1.by_app@[j],
                ) == nb[j] by {
                    if j != k {
                        assert(entry.1.by_app@[j] == pre_vec[j]);
                        assert(f(pre_vec[j]) == pre_by_app[j]);
                    } else {
                        assert(entry.1.by_app@[j] == (pair.0, bumped));
                        assert(f(pre_vec[k as int]) == pre_by_app[k as int]);
                    }
                }
                assert(entry.1.by_app@.map_values(f) =~= nb);
            }
        } else {
            entry.1.by_app.push((String::from_str(app_id), 1u64));
            proof {
                assert(entry.1.by_app@.map_values(|p: (String, u64)| (p.0@, p.1)) =~= bump_app(
                    pre_by_app,
                    app_id@,
                ));
            }
        }
        acc.insert(i, entry);
        proof {
            let target = bump_usage(pre, id@, app_id@);
            let g = |p: (String, crate::state::ShortcutUsageValue)| (p.0@, p.1@);
            assert(acc@.len() == pre.len());
            assert forall|j: int| 0 <= j < pre.len() implies g(#[trigger] acc@[j]) == target[j] by {
                if j != i {
                    assert(acc@[j] == old(acc)@[j]);
                    assert(g(old(acc)@[j]) == pre[j]);
                } else {
                    assert(acc@[j] == entry);
                    assert(entry.0@ == id@);
                }
            }
            assert(crate::state::usage_views(acc@) =~= target);
            lemma_bump_usage_wf(pre, id@, app_id@);
        }
    } else {
        let mut by_app: Vec<(String, u64)> = Vec::new();
        by_app.push((String::from_str(app_id), 1u64));
        let usage = crate::state::ShortcutUsageValue { count: 1, by_app };
        proof {
            assert(usage@.by_app =~= seq![(app_id@, 1u64)]);
        }
        acc.push((String::from_str(id), usage));
        proof {
            assert(crate::state::usage_views(acc@) =~= bump_usage(pre, id@, app_id@));
            lemma_bump_usage_wf(pre, id@, app_id@);
        }
    }
}

} // verus!

verus! {

/// The label a chunk's application reference resolves to: the dictionary
/// entry, or the placeholder `app:<ref>` for an unknown reference.
pub open spec fn app_label_of(s: CollectorStateV, app_ref: u32) -> Seq<char> {
    let j = assoc_first(s.app_dict, app_ref);
    if j >= 0 {
        s.app_dict[j].1
    } else {
        "app:"@ + crate::text::dec_of(app_ref as nat)
    }
}

/// Resolves the display label of an application reference.
pub fn app_label(state: &CollectorState, app_ref: u32) -> (r: String)
    ensures
        r@ == app_label_of(state@, app_ref),
{
    let mut i: usize = 0;
    while i < state.app_dict.len()
        invariant
            i <= state.app_dict@.len(),
            forall|j: int| 0 <= j < i ==> (#[trigger] state@.app_dict[j]).0 != app_ref,
        decreases state.app_dict@.len() - i,
    {
        if state.app_dict[i].0 == app_ref {
            proof {
                lemma_assoc_first(state@.app_dict, app_ref);
                let j = assoc_first(state@.app_dict, app_ref);
                assert(state@.app_dict[i as int].0 == app_ref);
                assert(j == i) by {
                    if j < i {
                        assert(state@.app_dict[j].0 != app_ref);
                    }
                    if j > i || j < 0 {
                        assert(state@.app_dict[i as int].0 == app_ref);
                    }
                }
            }
            return state.app_dict[i].1.clone();
        }
        proof {
            assert(state@.app_dict[i as int].0 == state.app_dict@[i as int].0);
        }
        i = i + 1;
    }
    proof {
        lemma_assoc_first(state@.app_dict, app_ref);
        assert(assoc_first(state@.app_dict, app_ref) < 0) by {
            if assoc_first(state@.app_dict, app_ref) >= 0 {
                assert(state@.app_dict[assoc_first(state@.app_dict, app_ref)].0 == app_ref);
            }
        }
    }
    let mut label = String::from_str("app:");
    let digits = crate::text::u64_to_string(app_ref as u64);
    label.append(digits.as_str());
    proof {
        assert(label@ =~= "app:"@ + crate::text::dec_of(app_ref as nat));
    }
    label
}

/// The effect of one raw compact event line on a usage table being
/// rebuilt: malformed lines and key-ups are skipped; inside a window,
/// events whose reconstructed wall-clock instant falls outside it are
/// skipped; everything else passes the admission filter and is counted.
pub open spec fn scan_event(
    s: CollectorStateV,
    acc: Seq<(Seq<char>, crate::state::ShortcutUsageV)>,
    app: Seq<char>,
    raw: Seq<char>,
    chunk_start: i64,
    win: Option<(int, int)>,
) -> Seq<(Seq<char>, crate::state::ShortcutUsageV)> {
    match crate::codec::parse_compact_spec(raw) {
        None => acc,
        Some((dt, t, key, mask)) => {
            if t != 'd' {
                acc
            } else {
                let in_win = match win {
                    None => true,
                    Some((lo, hi)) => {
                        let ev = crate::state::sat_add_i64(
                            chunk_start,
                            if dt < 0 {
                                0
                            } else {
                                dt
                            },
                        );
                        lo <= ev < hi
                    },
                };
                if !in_win {
                    acc
                } else {
                    let m = ModifierSnapshot::spec_from_bitmask(mask);
                    let id = normalize_id(m, key);
                    if should_count_spec(s, m, id) {
                        bump_usage(acc, id, app)
                    } else {
                        acc
                    }
                }
            }
        },
    }
}

/// A whole chunk's events folded into a usage table, oldest line first.
pub open spec fn scan_events(
    s: CollectorStateV,
    acc: Seq<(Seq<char>, crate::state::ShortcutUsageV)>,
    app: Seq<char>,
    events: Seq<Seq<char>>,
    chunk_start: i64,
    win: Option<(int, int)>,
) -> Seq<(Seq<char>, crate::state::ShortcutUsageV)>
    decreases events.len(),
{
    if events.len() == 0 {
        acc
    } else {
        scan_events(
            s,
            scan_event(s, acc, app, events[0], chunk_start, win),
            app,
            events.drop_first(),
            chunk_start,
            win,
        )
    }
}

proof fn lemma_scan_events_snoc(
    s: CollectorStateV,
    acc: Seq<(Seq<char>, crate::state::ShortcutUsageV)>,
    app: Seq<char>,
    events: Seq<Seq<char>>,
    e: Seq<char>,
    chunk_start: i64,
    win: Option<(int, int)>,
)
    ensures
        scan_events(s, acc, app, events.push(e), chunk_start, win) == scan_event(
            s,
            scan_events(s, acc, app, events, chunk_start, win),
            app,
            e,
            chunk_start,
            win,
        ),
    decreases events.len(),
{
    let pushed = events.push(e);
    if events.len() == 0 {
        assert(pushed[0] == e);
        assert(pushed.drop_first() =~= Seq::<Seq<char>>::empty());
        let stepped = scan_event(s, acc, app, e, chunk_start, win);
        assert(scan_events(s, acc, app, pushed, chunk_start, win) == scan_events(
            s,
            stepped,
            app,
            pushed.drop_first(),
            chunk_start,
            win,
        ));
        assert(scan_events(s, stepped, app, pushed.drop_first(), chunk_start, win) == stepped);
        assert(scan_events(s, acc, app, events, chunk_start, win) == acc);
    } else {
        assert(pushed[0] == events[0]);
        assert(pushed.drop_first() =~= events.drop_first().push(e));
        let stepped = scan_event(s, acc, app, events[0], chunk_start, win);
        assert(scan_events(s, acc, app, pushed, chunk_start, win) == scan_events(
            s,
            stepped,
            app,
            events.drop_first().push(e),
            chunk_start,
            win,
        ));
        lemma_scan_events_snoc(s, stepped, app, events.drop_first(), e, chunk_start, win);
        assert(scan_events(s, acc, app, events, chunk_start, win) == scan_events(
            s,
            stepped,
            app,
            events.drop_first(),
            chunk_start,
            win,
        ));
    }
}

proof fn lemma_scan_events_wf(
    s: CollectorStateV,
    acc: Seq<(Seq<char>, crate::state::ShortcutUsageV)>,
    app: Seq<char>,
    events: Seq<Seq<char>>,
    chunk_start: i64,
    win: Option<(int, int)>,
)
    requires
        crate::state::usage_wf(acc),
    ensures
        crate::state::usage_wf(scan_events(s, acc, app, events, chunk_start, win)),
    decreases events.len(),
{
    if events.len() > 0 {
        let stepped = scan_event(s, acc, app, events[0], chunk_start, win);
        assert(crate::state::usage_wf(stepped)) by {
            match crate::codec::parse_compact_spec(events[0]) {
                None => {},
                Some((dt, t, key, mask)) => {
                    let m = ModifierSnapshot::spec_from_bitmask(mask);
                    lemma_bump_usage_wf(acc, normalize_id(m, key), app);
                },
            }
        }
        lemma_scan_events_wf(s, stepped, app, events.drop_first(), chunk_start, win);
    }
}

/// All closed chunks folded into a usage table, oldest chunk first.
pub open spec fn scan_chunks(
    s: CollectorStateV,
    acc: Seq<(Seq<char>, crate::state::ShortcutUsageV)>,
    chunks: Seq<InputEventChunkV>,
    win: Option<(int, int)>,
) -> Seq<(Seq<char>, crate::state::ShortcutUsageV)>
    decreases chunks.len(),
{
    if chunks.len() == 0 {
        acc
    } else {
        scan_chunks(
            s,
            scan_events(
                s,
                acc,
                app_label_of(s, chunks[0].app_ref),
                chunks[0].events,
                chunks[0].chunk_start_ms,
                win,
            ),
            chunks.drop_first(),
            win,
        )
    }
}

proof fn lemma_scan_chunks_snoc(
    s: CollectorStateV,
    acc: Seq<(Seq<char>, crate::state::ShortcutUsageV)>,
    chunks: Seq<InputEventChunkV>,
    c: InputEventChunkV,
    win: Option<(int, int)>,
)
    ensures
        scan_chunks(s, acc, chunks.push(c), win) == scan_events(
            s,
            scan_chunks(s, acc, chunks, win),
            app_label_of(s, c.app_ref),
            c.events,
            c.chunk_start_ms,
            win,
        ),
    decreases chunks.len(),
{
    let pushed = chunks.push(c);
    if chunks.len() == 0 {
        assert(pushed[0] == c);
        assert(pushed.drop_first() =~= Seq::<InputEventChunkV>::empty());
        let stepped = scan_events(
            s,
            acc,
            app_label_of(s, c.app_ref),
            c.events,
            c.chunk_start_ms,
            win,
        );
        assert(scan_chunks(s, acc, pushed, win) == scan_chunks(
            s,
            stepped,
            pushed.drop_first(),
            win,
        ));
        assert(scan_chunks(s, stepped, pushed.drop_first(), win) == stepped);
        assert(scan_chunks(s, acc, chunks, win) == acc);
    } else {
        assert(pushed[0] == chunks[0]);
        assert(pushed.drop_first() =~= chunks.drop_first().push(c));
        let stepped = scan_events(
            s,
            acc,
            app_label_of(s, chunks[0].app_ref),
            chunks[0].events,
            chunks[0].chunk_start_ms,
            win,
        );
        assert(scan_chunks(s, acc, pushed, win) == scan_chunks(
            s,
            stepped,
            chunks.drop_first().push(c),
            win,
        ));
        lemma_scan_chunks_snoc(s, stepped, chunks.drop_first(), c, win);
        assert(scan_chunks(s, acc, chunks, win) == scan_chunks(
            s,
            stepped,
            chunks.drop_first(),
            win,
        ));
    }
}

proof fn lemma_scan_chunks_wf(
    s: CollectorStateV,
    acc: Seq<(Seq<char>, crate::state::ShortcutUsageV)>,
    chunks: Seq<InputEventChunkV>,
    win: Option<(int, int)>,
)
    requires
        crate::state::usage_wf(acc),
    ensures
        crate::state::usage_wf(scan_chunks(s, acc, chunks, win)),
    decreases chunks.len(),
{
    if chunks.len() > 0 {
        lemma_scan_events_wf(
            s,
            acc,
            app_label_of(s, chunks[0].app_ref),
            chunks[0].events,
            chunks[0].chunk_start_ms,
            win,
        );
        lemma_scan_chunks_wf(
            s,
            scan_events(
                s,
                acc,
                app_label_of(s, chunks[0].app_ref),
                chunks[0].events,
                chunks[0].chunk_start_ms,
                win,
            ),
            chunks.drop_first(),
            win,
        );
    }
}

/// The shortcut usage rebuilt from every closed chunk, without a window.
pub open spec fn rebuild_usage_spec(s: CollectorStateV) -> Seq<
    (Seq<char>, crate::state::ShortcutUsageV),
> {
    scan_chunks(s, Seq::empty(), s.event_chunks, None)
}

/// The shortcut usage re-aggregated from closed and open chunks, keeping
/// only events whose reconstructed instant falls in `[lo, hi)`.
pub open spec fn window_usage(s: CollectorStateV, lo: int, hi: int) -> Seq<
    (Seq<char>, crate::state::ShortcutUsageV),
> {
    let closed = scan_chunks(s, Seq::empty(), s.event_chunks, Some((lo, hi)));
    match s.open_event_chunk {
        Some(o) => scan_events(
            s,
            closed,
            app_label_of(s, o.app_ref),
            o.events,
            o.chunk_start_ms,
            Some((lo, hi)),
        ),
        None => closed,
    }
}

/// The window bounds as mathematical integers.
pub open spec fn win_view(w: Option<(i64, i64)>) -> Option<(int, int)> {
    match w {
        Some((lo, hi)) => Some((lo as int, hi as int)),
        None => None,
    }
}

/// Folds one event vector into a usage table under construction.
fn scan_events_into(
    state: &CollectorState,
    acc: &mut Vec<(String, crate::state::ShortcutUsageValue)>,
    app_id: &str,
    events: &Vec<String>,
    chunk_start: i64,
    win: Option<(i64, i64)>,
)
    requires
        crate::state::usage_wf(crate::state::usage_views(old(acc)@)),
    ensures
        crate::state::usage_views(final(acc)@) == scan_events(
            state@,
            crate::state::usage_views(old(acc)@),
            app_id@,
            views_of(events@),
            chunk_start,
            win_view(win),
        ),
        crate::state::usage_wf(crate::state::usage_views(final(acc)@)),
{
    let ghost evs = views_of(events@);
    let mut i: usize = 0;
    proof {
        assert(evs.subrange(0, 0) =~= Seq::<Seq<char>>::empty());
    }
    while i < events.len()
        invariant
            evs == views_of(events@),
            i <= events@.len(),
            crate::state::usage_views(acc@) == scan_events(
                state@,
                crate::state::usage_views(old(acc)@),
                app_id@,
                evs.subrange(0, i as int),
                chunk_start,
                win_view(win),
            ),
            crate::state::usage_wf(crate::state::usage_views(acc@)),
        decreases events@.len() - i,
    {
        let ghost before = crate::state::usage_views(acc@);
        let line = &events[i];
        match crate::codec::parse_compact_event(line.as_str()) {
            None => {},
            Some((dt, t, key, m)) => {
                if t == 'd' {
                    let in_win: bool = match win {
                        None => true,
                        Some((lo, hi)) => {
                            let ev = crate::state::saturating_add_i64(
                                chunk_start,
                                if dt < 0 {
                                    0
                                } else {
                                    dt
                                },
                            );
                            lo <= ev && ev < hi
                        },
                    };
                    if in_win {
                        let id = normalize_shortcut_id(m, key.as_str());
                        if should_count_shortcut(state, m, id.as_str()) {
                            proof {
                                let (sdt, st, skey, smask) = crate::codec::parse_compact_spec(
                                    evs[i as int],
                                ).unwrap();
                                assert(m == ModifierSnapshot::spec_from_bitmask(smask));
                                assert(normalize_id(m, key@) == normalize_id(
                                    ModifierSnapshot::spec_from_bitmask(smask),
                                    skey,
                                ));
                            }
                            bump_usage_vec(acc, id.as_str(), app_id);
                        }
                    }
                }
            },
        }
        proof {
            assert(evs[i as int] == events@[i as int]@);
            assert(crate::state::usage_views(acc@) == scan_event(
                state@,
                before,
                app_id@,
                evs[i as int],
                chunk_start,
                win_view(win),
            ));
            assert(evs.subrange(0, i + 1).drop_last() =~= evs.subrange(0, i as int));
            assert(evs.subrange(0, i + 1) =~= evs.subrange(0, i as int).push(evs[i as int]));
            lemma_scan_events_snoc(
                state@,
                crate::state::usage_views(old(acc)@),
                app_id@,
                evs.subrange(0, i as int),
                evs[i as int],
                chunk_start,
                win_view(win),
            );
        }
        i = i + 1;
    }
    proof {
        assert(evs.subrange(0, evs.len() as int) =~= evs);
    }
}

/// Re-derives the live shortcut aggregate from the closed chunks; runs at
/// process start when the loaded aggregate is empty but chunks exist.
pub fn rebuild_shortcut_usage_from_chunks(state: &mut CollectorState)
    requires
        old(state).wf(),
    ensures
        final(state).wf(),
        final(state)@ == (CollectorStateV {
            shortcut_usage: rebuild_usage_spec(old(state)@),
            ..old(state)@
        }),
{
    let mut aggregated: Vec<(String, crate::state::ShortcutUsageValue)> = Vec::new();
    let mut i: usize = 0;
    proof {
        assert(crate::state::usage_views(aggregated@) =~= Seq::<
            (Seq<char>, crate::state::ShortcutUsageV),
        >::empty());
        assert(state@.event_chunks.subrange(0, 0) =~= Seq::<InputEventChunkV>::empty());
    }
    while i < state.event_chunks.len()
        invariant
            state == old(state),
            old(state).wf(),
            i <= state.event_chunks@.len(),
            crate::state::usage_views(aggregated@) == scan_chunks(
                state@,
                Seq::empty(),
                state@.event_chunks.subrange(0, i as int),
                None,
            ),
            crate::state::usage_wf(crate::state::usage_views(aggregated@)),
        decreases state.event_chunks@.len() - i,
    {
        let ghost before = crate::state::usage_views(aggregated@);
        let label = app_label(state, state.event_chunks[i].app_ref);
        scan_events_into(
            state,
            &mut aggregated,
            label.as_str(),
            &state.event_chunks[i].events,
            state.event_chunks[i].chunk_start_ms,
            None,
        );
        proof {
            assert(state@.event_chunks[i as int] == state.event_chunks@[i as int]@);
            assert(state@.event_chunks.subrange(0, i + 1) =~= state@.event_chunks.subrange(
                0,
                i as int,
            ).push(state@.event_chunks[i as int]));
            lemma_scan_chunks_snoc(
                state@,
                Seq::empty(),
                state@.event_chunks.subrange(0, i as int),
                state@.event_chunks[i as int],
                None,
            );
        }
        i = i + 1;
    }
    proof {
        assert(state@.event_chunks.subrange(0, state@.event_chunks.len() as int)
            =~= state@.event_chunks);
    }
    state.shortcut_usage = aggregated;
    proof {
        assert(state@ =~~= (CollectorStateV {
            shortcut_usage: rebuild_usage_spec(old(state)@),
            ..old(state)@
        }));
        assert(crate::state::wf_state(state@));
    }
}

/// Rebuilds shortcut usage rows from the compact events of a time window.
pub fn snapshot_shortcut_rows_in_window(state: &CollectorState, start_ms: i64, end_ms: i64) -> (r:
    Vec<ShortcutStatRow>)
    ensures
        views_of(r@) == shortcut_rows_of(window_usage(state@, start_ms as int, end_ms as int)),
{
    let mut aggregated: Vec<(String, crate::state::ShortcutUsageValue)> = Vec::new();
    let mut i: usize = 0;
    proof {
        assert(crate::state::usage_views(aggregated@) =~= Seq::<
            (Seq<char>, crate::state::ShortcutUsageV),
        >::empty());
        assert(state@.event_chunks.subrange(0, 0) =~= Seq::<InputEventChunkV>::empty());
    }
    while i < state.event_chunks.len()
        invariant
            i <= state.event_chunks@.len(),
            crate::state::usage_views(aggregated@) == scan_chunks(
                state@,
                Seq::empty(),
                state@.event_chunks.subrange(0, i as int),
                Some((start_ms as int, end_ms as int)),
            ),
            crate::state::usage_wf(crate::state::usage_views(aggregated@)),
        decreases state.event_chunks@.len() - i,
    {
        let label = app_label(state, state.event_chunks[i].app_ref);
        scan_events_into(
            state,
            &mut aggregated,
            label.as_str(),
            &state.event_chunks[i].events,
            state.event_chunks[i].chunk_start_ms,
            Some((start_ms, end_ms)),
        );
        proof {
            assert(state@.event_chunks[i as int] == state.event_chunks@[i as int]@);
            assert(state@.event_chunks.subrange(0, i + 1) =~= state@.event_chunks.subrange(
                0,
                i as int,
            ).push(state@.event_chunks[i as int]));
            lemma_scan_chunks_snoc(
                state@,
                Seq::empty(),
                state@.event_chunks.subrange(0, i as int),
                state@.event_chunks[i as int],
                Some((start_ms as int, end_ms as int)),
            );
        }
        i = i + 1;
    }
    proof {
        assert(state@.event_chunks.subrange(0, state@.event_chunks.len() as int)
            =~= state@.event_chunks);
    }
    match &state.open_event_chunk {
        Some(open) => {
            let label = app_label(state, open.app_ref);
            scan_events_into(
                state,
                &mut aggregated,
                label.as_str(),
                &open.events,
                open.chunk_start_ms,
                Some((start_ms, end_ms)),
            );
        },
        None => {},
    }
    build_shortcut_rows(&aggregated)
}

/// The `[start, end)` window, in local epoch milliseconds, that a range
/// selector names, given the local midnight of the current day: `today`
/// is that day, `yesterday` the day before, and anything else the last
/// seven full days including today.
pub open spec fn range_window_of(range: Seq<char>, today_start: i64) -> (int, int) {
    let day: i64 = 86400000;
    if range == "today"@ {
        (today_start as int, crate::state::sat_add_i64(today_start, day) as int)
    } else if range == "yesterday"@ {
        (crate::state::sat_sub_i64(today_start, day) as int, today_start as int)
    } else {
        (
            crate::state::sat_sub_i64(today_start, 518400000) as int,
            crate::state::sat_add_i64(today_start, day) as int,
        )
    }
}

/// Computes the window of a range selector from a local midnight.
pub fn range_window_ms(range: &str, today_start: i64) -> (r: (i64, i64))
    ensures
        (r.0 as int, r.1 as int) == range_window_of(range@, today_start),
{
    let day: i64 = 86400000;
    if str_eq(range, "today") {
        (today_start, crate::state::saturating_add_i64(today_start, day))
    } else if str_eq(range, "yesterday") {
        (crate::state::saturating_sub_i64(today_start, day), today_start)
    } else {
        (
            crate::state::saturating_sub_i64(today_start, 518400000),
            crate::state::saturating_add_i64(today_start, day),
        )
    }
}

/// Builds shortcut leaderboard rows for a selected range: `today`,
/// `yesterday`, or the last seven days. The window ends are read from the
/// wall clock and the local calendar, so the contract fixes the result
/// only as a function of some such window.
pub fn snapshot_shortcut_rows_by_range(state: &CollectorState, range: &str) -> (r: Vec<
    ShortcutStatRow,
>)
    ensures
        exists|today_start: i64|
            views_of(r@) == shortcut_rows_of(
                window_usage(
                    state@,
                    range_window_of(range@, today_start).0,
                    range_window_of(range@, today_start).1,
                ),
            ),
{
    let now_ms = crate::clock::current_ts_ms();
    let today_start = crate::clock::local_day_start_ms(now_ms);
    let window = range_window_ms(range, today_start);
    let rows = snapshot_shortcut_rows_in_window(state, window.0, window.1);
    proof {
        let ghost w: i64 = today_start;
        assert(views_of(rows@) == shortcut_rows_of(
            window_usage(
                state@,
                range_window_of(range@, w).0,
                range_window_of(range@, w).1,
            ),
        ));
    }
    rows
}

} // verus!
