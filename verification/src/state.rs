//! The collector's shared state: aggregation tables, runtime flags,
//! shortcut rules, the compact-event chunk store, and its well-formedness
//! invariant. Association tables are vectors of pairs with distinct keys,
//! so every aggregate has a deterministic order.

use crate::config::MenuBarDisplayMode;
use crate::event::{StatsKey, StatsKeyV, StatsValue};
use vstd::prelude::*;

verus! {

/// Runtime aggregate for one normalized shortcut id.
pub struct ShortcutUsageValue {
    pub count: u64,
    pub by_app: Vec<(String, u64)>,
}

/// Ghost image of a `ShortcutUsageValue`.
pub struct ShortcutUsageV {
    pub count: u64,
    pub by_app: Seq<(Seq<char>, u64)>,
}

impl View for ShortcutUsageValue {
    type V = ShortcutUsageV;

    open spec fn view(&self) -> ShortcutUsageV {
        ShortcutUsageV {
            count: self.count,
            by_app: self.by_app@.map_values(|p: (String, u64)| (p.0@, p.1)),
        }
    }
}

impl Clone for ShortcutUsageValue {
    fn clone(&self) -> (r: Self)
        ensures
            r@ == self@,
    {
        let mut by_app: Vec<(String, u64)> = Vec::new();
        let mut i: usize = 0;
        while i < self.by_app.len()
            invariant
                i <= self.by_app@.len(),
                by_app@.map_values(|p: (String, u64)| (p.0@, p.1)) == self.by_app@.subrange(
                    0,
                    i as int,
                ).map_values(|p: (String, u64)| (p.0@, p.1)),
            decreases self.by_app@.len() - i,
        {
            let entry = (self.by_app[i].0.clone(), self.by_app[i].1);
            let ghost pre = by_app@;
            by_app.push(entry);
            proof {
                let f = |p: (String, u64)| (p.0@, p.1);
                assert(pre.len() == i) by {
                    assert(pre.map_values(f).len() == pre.len());
                    assert(self.by_app@.subrange(0, i as int).map_values(f).len() == i);
                }
                assert forall|k: int| 0 <= k < i + 1 implies by_app@.map_values(f)[k]
                    == self.by_app@.subrange(0, i + 1).map_values(f)[k] by {
                    if k < i {
                        assert(pre.map_values(f)[k] == self.by_app@.subrange(0, i as int).map_values(
                            f,
                        )[k]);
                    }
                }
                assert(by_app@.map_values(f) =~= self.by_app@.subrange(0, i + 1).map_values(f));
            }
            i = i + 1;
        }
        proof {
            assert(self.by_app@.subrange(0, self.by_app@.len() as int) =~= self.by_app@);
        }
        ShortcutUsageValue { count: self.count, by_app }
    }
}

/// A closed chunk of compact event strings sharing one application.
pub struct InputEventChunk {
    pub v: u8,
    pub chunk_start_ms: i64,
    pub app_ref: u32,
    pub events: Vec<String>,
}

/// Ghost image of an `InputEventChunk`.
pub struct InputEventChunkV {
    pub v: u8,
    pub chunk_start_ms: i64,
    pub app_ref: u32,
    pub events: Seq<Seq<char>>,
}

impl View for InputEventChunk {
    type V = InputEventChunkV;

    open spec fn view(&self) -> InputEventChunkV {
        InputEventChunkV {
            v: self.v,
            chunk_start_ms: self.chunk_start_ms,
            app_ref: self.app_ref,
            events: crate::sort::views_of(self.events@),
        }
    }
}

impl Clone for InputEventChunk {
    fn clone(&self) -> (r: Self)
        ensures
            r@ == self@,
    {
        let events = clone_string_vec(&self.events);
        InputEventChunk {
            v: self.v,
            chunk_start_ms: self.chunk_start_ms,
            app_ref: self.app_ref,
            events,
        }
    }
}

/// The chunk still accepting events before its rotation.
pub struct OpenInputEventChunk {
    pub chunk_start_ms: i64,
    pub app_ref: u32,
    pub events: Vec<String>,
}

/// Ghost image of an `OpenInputEventChunk`.
pub struct OpenInputEventChunkV {
    pub chunk_start_ms: i64,
    pub app_ref: u32,
    pub events: Seq<Seq<char>>,
}

impl View for OpenInputEventChunk {
    type V = OpenInputEventChunkV;

    open spec fn view(&self) -> OpenInputEventChunkV {
        OpenInputEventChunkV {
            chunk_start_ms: self.chunk_start_ms,
            app_ref: self.app_ref,
            events: crate::sort::views_of(self.events@),
        }
    }
}

impl Clone for OpenInputEventChunk {
    fn clone(&self) -> (r: Self)
        ensures
            r@ == self@,
    {
        let events = clone_string_vec(&self.events);
        OpenInputEventChunk { chunk_start_ms: self.chunk_start_ms, app_ref: self.app_ref, events }
    }
}

/// Copies a vector of strings, keeping every view.
pub fn clone_string_vec(v: &Vec<String>) -> (r: Vec<String>)
    ensures
        crate::sort::views_of(r@) == crate::sort::views_of(v@),
{
    let mut out: Vec<String> = Vec::new();
    let mut i: usize = 0;
    while i < v.len()
        invariant
            i <= v@.len(),
            crate::sort::views_of(out@) == crate::sort::views_of(v@.subrange(0, i as int)),
        decreases v@.len() - i,
    {
        let ghost pre = out@;
        out.push(v[i].clone());
        proof {
            assert(out@ == pre.push(v@[i as int]));
            assert(out@.len() == pre.len() + 1);
            assert(crate::sort::views_of(pre).len() == pre.len());
            assert(crate::sort::views_of(v@.subrange(0, i as int)).len() == i);
            assert(pre.len() == i);
            assert(out@.len() == i + 1);
            assert(out@[i as int]@ == v@[i as int]@);
            assert forall|k: int| 0 <= k < i + 1 implies crate::sort::views_of(out@)[k]
                == crate::sort::views_of(v@.subrange(0, i + 1))[k] by {
                if k < i {
                    assert(crate::sort::views_of(pre)[k] == crate::sort::views_of(
                        v@.subrange(0, i as int),
                    )[k]);
                }
            }
            assert(crate::sort::views_of(out@) =~= crate::sort::views_of(v@.subrange(0, i + 1)));
        }
        i = i + 1;
    }
    proof {
        assert(v@.subrange(0, v@.len() as int) =~= v@);
    }
    out
}

/// In-memory state of the collector, guarded by one lock in the runtime.
pub struct CollectorState {
    /// Typing-intensity buckets, keyed by (minute, app, window).
    pub stats: Vec<(StatsKey, StatsValue)>,
    /// Monotonic instant of the last counted typing activity, in
    /// milliseconds; `None` until the first counted key-down.
    pub last_typing_at_ms: Option<u64>,
    /// Poll period of the tick thread, in milliseconds.
    pub collector_tick_interval_ms: u64,
    /// Period between persistence flushes, in milliseconds.
    pub flush_interval_ms: u64,
    /// Session boundary threshold, in milliseconds.
    pub session_gap_ms: u64,
    /// User-requested pause.
    pub paused: bool,
    /// Transient pause from the exclusion list or secure input.
    pub auto_paused: bool,
    /// Why capture is auto-paused, when it is.
    pub auto_pause_reason: Option<String>,
    /// Whether the platform key listener is running.
    pub keyboard_active: bool,
    /// Whether key presses with a held modifier are dropped entirely.
    pub ignore_key_combos: bool,
    /// Menu-bar widget rendering mode.
    pub menu_bar_display_mode: MenuBarDisplayMode,
    /// Normalized application identifiers excluded from capture.
    pub excluded_bundle_ids: Vec<String>,
    /// Whether the one-time password-manager suggestion awaits an answer.
    pub one_password_suggestion_pending: bool,
    /// Last listener or persistence error, for the UI.
    pub last_error: Option<String>,
    /// Physical keys currently held, for auto-repeat suppression.
    pub pressed_non_modifier_keys: Vec<String>,
    /// The bucket currently earning typing time, if any.
    pub active_stats_key: Option<StatsKey>,
    /// Shortcut aggregates keyed by normalized shortcut id.
    pub shortcut_usage: Vec<(String, ShortcutUsageValue)>,
    /// Application dictionary: reference number to application id.
    pub app_dict: Vec<(u32, String)>,
    /// Inverse dictionary, entry for entry.
    pub app_ref_by_app: Vec<(String, u32)>,
    /// Next free application reference; larger than every assigned one.
    pub next_app_ref: u32,
    /// Closed chunks, oldest first, at most the retention cap.
    pub event_chunks: Vec<InputEventChunk>,
    /// The chunk currently accepting events.
    pub open_event_chunk: Option<OpenInputEventChunk>,
    /// Whether a counted shortcut must include cmd or ctrl.
    pub shortcut_require_cmd_or_ctrl: bool,
    /// Whether opt alone qualifies as a shortcut modifier.
    pub shortcut_allow_alt_only: bool,
    /// Minimum number of held modifiers for a counted shortcut.
    pub shortcut_min_modifiers: u8,
    /// When non-empty, only these shortcut ids are counted.
    pub shortcut_allowlist: Vec<String>,
    /// Shortcut ids never counted; stronger than the allowlist.
    pub shortcut_blocklist: Vec<String>,
    /// Path of the CSV mirror.
    pub log_path: String,
    /// Path of the runtime log.
    pub app_log_path: String,
}

/// Ghost image of the collector state.
pub struct CollectorStateV {
    pub stats: Seq<(StatsKeyV, StatsValue)>,
    pub last_typing_at_ms: Option<u64>,
    pub collector_tick_interval_ms: u64,
    pub flush_interval_ms: u64,
    pub session_gap_ms: u64,
    pub paused: bool,
    pub auto_paused: bool,
    pub auto_pause_reason: Option<Seq<char>>,
    pub keyboard_active: bool,
    pub ignore_key_combos: bool,
    pub menu_bar_display_mode: MenuBarDisplayMode,
    pub excluded_bundle_ids: Seq<Seq<char>>,
    pub one_password_suggestion_pending: bool,
    pub last_error: Option<Seq<char>>,
    pub pressed_non_modifier_keys: Seq<Seq<char>>,
    pub active_stats_key: Option<StatsKeyV>,
    pub shortcut_usage: Seq<(Seq<char>, ShortcutUsageV)>,
    pub app_dict: Seq<(u32, Seq<char>)>,
    pub app_ref_by_app: Seq<(Seq<char>, u32)>,
    pub next_app_ref: u32,
    pub event_chunks: Seq<InputEventChunkV>,
    pub open_event_chunk: Option<OpenInputEventChunkV>,
    pub shortcut_require_cmd_or_ctrl: bool,
    pub shortcut_allow_alt_only: bool,
    pub shortcut_min_modifiers: u8,
    pub shortcut_allowlist: Seq<Seq<char>>,
    pub shortcut_blocklist: Seq<Seq<char>>,
    pub log_path: Seq<char>,
    pub app_log_path: Seq<char>,
}

/// View of an optional string.
pub open spec fn opt_str_view(o: Option<String>) -> Option<Seq<char>> {
    match o {
        Some(s) => Some(s@),
        None => None,
    }
}

/// View of an optional stats key.
pub open spec fn opt_key_view(o: Option<StatsKey>) -> Option<StatsKeyV> {
    match o {
        Some(k) => Some(k@),
        None => None,
    }
}

/// View of an optional open chunk.
pub open spec fn opt_chunk_view(o: Option<OpenInputEventChunk>) -> Option<OpenInputEventChunkV> {
    match o {
        Some(c) => Some(c@),
        None => None,
    }
}

impl View for CollectorState {
    type V = CollectorStateV;

    open spec fn view(&self) -> CollectorStateV {
        CollectorStateV {
            stats: self.stats@.map_values(|p: (StatsKey, StatsValue)| (p.0@, p.1)),
            last_typing_at_ms: self.last_typing_at_ms,
            collector_tick_interval_ms: self.collector_tick_interval_ms,
            flush_interval_ms: self.flush_interval_ms,
            session_gap_ms: self.session_gap_ms,
            paused: self.paused,
            auto_paused: self.auto_paused,
            auto_pause_reason: opt_str_view(self.auto_pause_reason),
            keyboard_active: self.keyboard_active,
            ignore_key_combos: self.ignore_key_combos,
            menu_bar_display_mode: self.menu_bar_display_mode,
            excluded_bundle_ids: crate::sort::views_of(self.excluded_bundle_ids@),
            one_password_suggestion_pending: self.one_password_suggestion_pending,
            last_error: opt_str_view(self.last_error),
            pressed_non_modifier_keys: crate::sort::views_of(self.pressed_non_modifier_keys@),
            active_stats_key: opt_key_view(self.active_stats_key),
            shortcut_usage: self.shortcut_usage@.map_values(
                |p: (String, ShortcutUsageValue)| (p.0@, p.1@),
            ),
            app_dict: self.app_dict@.map_values(|p: (u32, String)| (p.0, p.1@)),
            app_ref_by_app: self.app_ref_by_app@.map_values(|p: (String, u32)| (p.0@, p.1)),
            next_app_ref: self.next_app_ref,
            event_chunks: self.event_chunks@.map_values(|c: InputEventChunk| c@),
            open_event_chunk: opt_chunk_view(self.open_event_chunk),
            shortcut_require_cmd_or_ctrl: self.shortcut_require_cmd_or_ctrl,
            shortcut_allow_alt_only: self.shortcut_allow_alt_only,
            shortcut_min_modifiers: self.shortcut_min_modifiers,
            shortcut_allowlist: crate::sort::views_of(self.shortcut_allowlist@),
            shortcut_blocklist: crate::sort::views_of(self.shortcut_blocklist@),
            log_path: self.log_path@,
            app_log_path: self.app_log_path@,
        }
    }
}

/// First index whose pair key equals `k`, or `-1`.
pub open spec fn assoc_first<K, V>(s: Seq<(K, V)>, k: K) -> int
    decreases s.len(),
{
    if s.len() == 0 {
        -1
    } else if s[0].0 == k {
        0
    } else {
        let r = assoc_first(s.drop_first(), k);
        if r < 0 {
            -1
        } else {
            r + 1
        }
    }
}

pub proof fn lemma_assoc_first<K, V>(s: Seq<(K, V)>, k: K)
    ensures
        assoc_first(s, k) == -1 ==> forall|i: int| 0 <= i < s.len() ==> (#[trigger] s[i]).0 != k,
        assoc_first(s, k) >= 0 ==> 0 <= assoc_first(s, k) < s.len() && s[assoc_first(s, k)].0 == k
            && forall|i: int| 0 <= i < assoc_first(s, k) ==> (#[trigger] s[i]).0 != k,
    decreases s.len(),
{
    if s.len() > 0 && s[0].0 != k {
        lemma_assoc_first(s.drop_first(), k);
        let t = s.drop_first();
        if assoc_first(s, k) >= 0 {
            assert(t[assoc_first(t, k)] == s[assoc_first(s, k)]);
            assert(forall|i: int|
                1 <= i < assoc_first(s, k) ==> (#[trigger] s[i]).0 == t[i - 1].0);
        } else {
            assert(forall|i: int| 1 <= i < s.len() ==> (#[trigger] s[i]).0 == t[i - 1].0);
        }
    }
}

/// First index of `x` in `s`, or `-1`.
pub open spec fn first_idx<T>(s: Seq<T>, x: T) -> int
    decreases s.len(),
{
    if s.len() == 0 {
        -1
    } else if s[0] == x {
        0
    } else {
        let r = first_idx(s.drop_first(), x);
        if r < 0 {
            -1
        } else {
            r + 1
        }
    }
}

pub proof fn lemma_first_idx<T>(s: Seq<T>, x: T)
    ensures
        first_idx(s, x) == -1 ==> forall|i: int| 0 <= i < s.len() ==> s[i] != x,
        first_idx(s, x) >= 0 ==> 0 <= first_idx(s, x) < s.len() && s[first_idx(s, x)] == x
            && forall|i: int| 0 <= i < first_idx(s, x) ==> s[i] != x,
    decreases s.len(),
{
    if s.len() > 0 && s[0] != x {
        lemma_first_idx(s.drop_first(), x);
        let t = s.drop_first();
        if first_idx(s, x) >= 0 {
            assert(t[first_idx(t, x)] == s[first_idx(s, x)]);
            assert(forall|i: int| 1 <= i < first_idx(s, x) ==> s[i] == t[i - 1]);
        } else {
            assert(forall|i: int| 1 <= i < s.len() ==> s[i] == t[i - 1]);
        }
    }
}

/// Whether `x` occurs in `s`.
pub open spec fn seq_has<T>(s: Seq<T>, x: T) -> bool {
    exists|i: int| 0 <= i < s.len() && s[i] == x
}

/// All pair keys of the association sequence are distinct.
pub open spec fn distinct_keys<K, V>(s: Seq<(K, V)>) -> bool {
    forall|i: int, j: int| #![trigger s[i], s[j]] 0 <= i < j < s.len() ==> s[i].0 != s[j].0
}

/// All elements of the sequence are distinct.
pub open spec fn distinct_elems<T>(s: Seq<T>) -> bool {
    forall|i: int, j: int| #![trigger s[i], s[j]] 0 <= i < j < s.len() ==> s[i] != s[j]
}

/// Well-formedness of the collector state: association tables have
/// distinct keys, the two application dictionaries mirror each other, the
/// next reference number is fresh, resource bounds hold, and a non-empty
/// pressed set always has an active bucket to account to.
pub open spec fn wf_state(s: CollectorStateV) -> bool {
    &&& distinct_keys(s.stats)
    &&& distinct_elems(s.pressed_non_modifier_keys)
    &&& distinct_keys(s.shortcut_usage)
    &&& forall|i: int|
        0 <= i < s.shortcut_usage.len() ==> distinct_keys(
            (#[trigger] s.shortcut_usage[i]).1.by_app,
        )
    &&& distinct_keys(s.app_dict)
    &&& s.app_ref_by_app.len() == s.app_dict.len()
    &&& forall|i: int|
        0 <= i < s.app_dict.len() ==> #[trigger] s.app_ref_by_app[i] == (
        s.app_dict[i].1,
        s.app_dict[i].0,
        )
    &&& distinct_keys(s.app_ref_by_app)
    &&& forall|i: int| 0 <= i < s.app_dict.len() ==> (#[trigger] s.app_dict[i]).0 < s.next_app_ref
    &&& s.next_app_ref >= 1
    &&& s.event_chunks.len() <= 20000
    &&& match s.open_event_chunk {
        Some(c) => c.events.len() <= 500,
        None => true,
    }
}

/// Between events, a non-empty pressed set always has an active bucket:
/// a counted key-down sets both, a key-up clears the bucket only when the
/// last key is released, and pauses clear both.
pub open spec fn active_tracks_pressed(s: CollectorStateV) -> bool {
    s.pressed_non_modifier_keys.len() > 0 ==> s.active_stats_key is Some
}

impl CollectorState {
    /// Well-formedness of the state's ghost image.
    pub open spec fn wf(&self) -> bool {
        wf_state(self@)
    }
}

} // verus!

verus! {

/// Sum clamped to the largest sixty-four-bit value.
pub open spec fn sat_add_u64(a: u64, b: u64) -> u64 {
    if a + b > u64::MAX {
        u64::MAX
    } else {
        (a + b) as u64
    }
}

pub fn saturating_add_u64(a: u64, b: u64) -> (r: u64)
    ensures
        r == sat_add_u64(a, b),
{
    if a > u64::MAX - b {
        u64::MAX
    } else {
        a + b
    }
}

/// Sum clamped to the largest thirty-two-bit value.
pub open spec fn sat_add_u32(a: u32, b: u32) -> u32 {
    if a + b > u32::MAX {
        u32::MAX
    } else {
        (a + b) as u32
    }
}

pub fn saturating_add_u32(a: u32, b: u32) -> (r: u32)
    ensures
        r == sat_add_u32(a, b),
{
    if a > u32::MAX - b {
        u32::MAX
    } else {
        a + b
    }
}

/// Difference clamped to zero below.
pub open spec fn sat_sub_u64(a: u64, b: u64) -> u64 {
    if a < b {
        0
    } else {
        (a - b) as u64
    }
}

pub fn saturating_sub_u64(a: u64, b: u64) -> (r: u64)
    ensures
        r == sat_sub_u64(a, b),
{
    if a < b {
        0
    } else {
        a - b
    }
}

} // verus!

verus! {

/// Signed sum clamped at the representation bounds.
pub open spec fn sat_add_i64(a: i64, b: i64) -> i64 {
    if a + b > i64::MAX {
        i64::MAX
    } else if a + b < i64::MIN {
        i64::MIN
    } else {
        (a + b) as i64
    }
}

pub fn saturating_add_i64(a: i64, b: i64) -> (r: i64)
    ensures
        r == sat_add_i64(a, b),
{
    match a.checked_add(b) {
        Some(v) => v,
        None => {
            if b > 0 {
                i64::MAX
            } else {
                i64::MIN
            }
        },
    }
}

/// Signed difference clamped at the representation bounds.
pub open spec fn sat_sub_i64(a: i64, b: i64) -> i64 {
    if a - b > i64::MAX {
        i64::MAX
    } else if a - b < i64::MIN {
        i64::MIN
    } else {
        (a - b) as i64
    }
}

pub fn saturating_sub_i64(a: i64, b: i64) -> (r: i64)
    ensures
        r == sat_sub_i64(a, b),
{
    match a.checked_sub(b) {
        Some(v) => v,
        None => {
            if b < 0 {
                i64::MAX
            } else {
                i64::MIN
            }
        },
    }
}

} // verus!

verus! {

/// Views of a shortcut-usage association vector.
pub open spec fn usage_views(s: Seq<(String, ShortcutUsageValue)>) -> Seq<
    (Seq<char>, ShortcutUsageV),
> {
    s.map_values(|p: (String, ShortcutUsageValue)| (p.0@, p.1@))
}

/// Well-formedness of a usage table on its own: distinct shortcut ids and
/// distinct application keys inside each entry.
pub open spec fn usage_wf(u: Seq<(Seq<char>, ShortcutUsageV)>) -> bool {
    &&& distinct_keys(u)
    &&& forall|i: int| 0 <= i < u.len() ==> distinct_keys((#[trigger] u[i]).1.by_app)
}

} // verus!

verus! {

/// The value an association sequence binds a key to, if any.
pub open spec fn assoc_get<K, V>(s: Seq<(K, V)>, k: K) -> Option<V> {
    let j = assoc_first(s, k);
    if j >= 0 {
        Some(s[j].1)
    } else {
        None
    }
}

} // verus!

verus! {

/// Appending a pair with a different key leaves a key's first index
/// unchanged.
pub proof fn lemma_assoc_first_push_other<K, V>(s: Seq<(K, V)>, p: (K, V), k: K)
    requires
        p.0 != k,
    ensures
        assoc_first(s.push(p), k) == assoc_first(s, k),
    decreases s.len(),
{
    if s.len() == 0 {
        assert(s.push(p)[0] == p);
        assert(s.push(p).drop_first() =~= Seq::<(K, V)>::empty());
        assert(assoc_first(Seq::<(K, V)>::empty(), k) == -1);
        assert(assoc_first(s.push(p), k) == -1);
        assert(assoc_first(s, k) == -1);
    } else {
        assert(s.push(p)[0] == s[0]);
        assert(s.push(p).drop_first() =~= s.drop_first().push(p));
        lemma_assoc_first_push_other(s.drop_first(), p, k);
        assert(assoc_first(s.push(p).drop_first(), k) == assoc_first(s.drop_first(), k));
    }
}

/// Two association sequences with identical keys position for position
/// give every key the same first index.
pub proof fn lemma_assoc_first_same_keys<K, V>(s1: Seq<(K, V)>, s2: Seq<(K, V)>, k: K)
    requires
        s1.len() == s2.len(),
        forall|i: int| 0 <= i < s1.len() ==> (#[trigger] s1[i]).0 == s2[i].0,
    ensures
        assoc_first(s1, k) == assoc_first(s2, k),
    decreases s1.len(),
{
    if s1.len() > 0 {
        assert(s1[0].0 == s2[0].0);
        if s1[0].0 != k {
            assert(forall|i: int|
                0 <= i < s1.len() - 1 ==> (#[trigger] s1.drop_first()[i]).0
                    == s2.drop_first()[i].0);
            lemma_assoc_first_same_keys(s1.drop_first(), s2.drop_first(), k);
        }
    }
}

} // verus!
