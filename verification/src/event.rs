//! The collector's event model: capture context snapshots, aggregation
//! keys, and the three normalized collector events.

use crate::modifier::ModifierSnapshot;
use vstd::prelude::*;

verus! {

/// The aggregation key of one typing-intensity bucket: local minute,
/// application identifier (or display name), and window title.
pub struct StatsKey {
    pub date: String,
    pub app_name: String,
    pub window_title: String,
}

/// Ghost image of a `StatsKey`.
pub struct StatsKeyV {
    pub date: Seq<char>,
    pub app_name: Seq<char>,
    pub window_title: Seq<char>,
}

impl View for StatsKey {
    type V = StatsKeyV;

    open spec fn view(&self) -> StatsKeyV {
        StatsKeyV { date: self.date@, app_name: self.app_name@, window_title: self.window_title@ }
    }
}

impl Clone for StatsKey {
    fn clone(&self) -> (r: Self)
        ensures
            r@ == self@,
    {
        StatsKey {
            date: self.date.clone(),
            app_name: self.app_name.clone(),
            window_title: self.window_title.clone(),
        }
    }
}

impl StatsKey {
    /// Equality of two keys by contents.
    pub fn key_eq(&self, other: &StatsKey) -> (r: bool)
        ensures
            r == (self@ == other@),
    {
        let r = self.date.eq(&other.date) && self.app_name.eq(&other.app_name)
            && self.window_title.eq(&other.window_title);
        proof {
            if r {
                assert(self@ == other@);
            }
        }
        r
    }
}

/// The aggregate of one bucket. All three counters only ever grow.
#[derive(Clone, Copy, PartialEq, Eq, Structural, Debug)]
pub struct StatsValue {
    pub active_typing_ms: u64,
    pub key_count: u64,
    pub session_count: u64,
}

/// What the platform context bridge reports for the foreground application
/// at the moment of an event.
pub struct CaptureContext {
    pub app_name: String,
    pub window_title: String,
    pub bundle_id: Option<String>,
    pub secure_input: bool,
}

/// Ghost image of a `CaptureContext`.
pub struct CaptureContextV {
    pub app_name: Seq<char>,
    pub window_title: Seq<char>,
    pub bundle_id: Option<Seq<char>>,
    pub secure_input: bool,
}

impl View for CaptureContext {
    type V = CaptureContextV;

    open spec fn view(&self) -> CaptureContextV {
        CaptureContextV {
            app_name: self.app_name@,
            window_title: self.window_title@,
            bundle_id: match self.bundle_id {
                Some(b) => Some(b@),
                None => None,
            },
            secure_input: self.secure_input,
        }
    }
}

impl Clone for CaptureContext {
    fn clone(&self) -> (r: Self)
        ensures
            r@ == self@,
    {
        CaptureContext {
            app_name: self.app_name.clone(),
            window_title: self.window_title.clone(),
            bundle_id: match &self.bundle_id {
                Some(b) => Some(b.clone()),
                None => None,
            },
            secure_input: self.secure_input,
        }
    }
}

/// The application identifier a context attributes work to: the bundle
/// identifier when known, the display name otherwise.
pub open spec fn app_id_of(ctx: CaptureContextV) -> Seq<char> {
    match ctx.bundle_id {
        Some(b) => b,
        None => ctx.app_name,
    }
}

pub fn app_id_from_context(capture_context: &CaptureContext) -> (r: String)
    ensures
        r@ == app_id_of(capture_context@),
{
    match &capture_context.bundle_id {
        Some(b) => b.clone(),
        None => capture_context.app_name.clone(),
    }
}

/// The bucket key an event at the given local minute falls into.
pub open spec fn stats_key_of(ctx: CaptureContextV, minute: Seq<char>) -> StatsKeyV {
    StatsKeyV { date: minute, app_name: app_id_of(ctx), window_title: ctx.window_title }
}

pub fn stats_key_from_context(capture_context: &CaptureContext, minute: &str) -> (k: StatsKey)
    ensures
        k@ == stats_key_of(capture_context@, minute@),
{
    StatsKey {
        date: String::from_str(minute),
        app_name: app_id_from_context(capture_context),
        window_title: capture_context.window_title.clone(),
    }
}

/// One normalized collector event. Monotonic times are carried as
/// milliseconds since an arbitrary process-local origin; the local minute
/// label of a key-down is resolved by the caller at capture time.
pub enum CollectorEvent {
    NonModifierKeyDown {
        physical_key_id: String,
        shortcut_key: String,
        modifiers: ModifierSnapshot,
        is_key_combo: bool,
        capture_context: CaptureContext,
        minute: String,
        at_ms: u64,
    },
    NonModifierKeyUp {
        physical_key_id: String,
        shortcut_key: String,
        modifiers: ModifierSnapshot,
        capture_context: CaptureContext,
    },
    Tick { elapsed_ms: u64, capture_context: CaptureContext, at_ms: u64 },
}

/// Ghost image of a `CollectorEvent`.
pub enum CollectorEventV {
    NonModifierKeyDown {
        physical_key_id: Seq<char>,
        shortcut_key: Seq<char>,
        modifiers: ModifierSnapshot,
        is_key_combo: bool,
        capture_context: CaptureContextV,
        minute: Seq<char>,
        at_ms: u64,
    },
    NonModifierKeyUp {
        physical_key_id: Seq<char>,
        shortcut_key: Seq<char>,
        modifiers: ModifierSnapshot,
        capture_context: CaptureContextV,
    },
    Tick { elapsed_ms: u64, capture_context: CaptureContextV, at_ms: u64 },
}

impl View for CollectorEvent {
    type V = CollectorEventV;

    open spec fn view(&self) -> CollectorEventV {
        match self {
            CollectorEvent::NonModifierKeyDown {
                physical_key_id,
                shortcut_key,
                modifiers,
                is_key_combo,
                capture_context,
                minute,
                at_ms,
            } => CollectorEventV::NonModifierKeyDown {
                physical_key_id: physical_key_id@,
                shortcut_key: shortcut_key@,
                modifiers: *modifiers,
                is_key_combo: *is_key_combo,
                capture_context: capture_context@,
                minute: minute@,
                at_ms: *at_ms,
            },
            CollectorEvent::NonModifierKeyUp {
                physical_key_id,
                shortcut_key,
                modifiers,
                capture_context,
            } => CollectorEventV::NonModifierKeyUp {
                physical_key_id: physical_key_id@,
                shortcut_key: shortcut_key@,
                modifiers: *modifiers,
                capture_context: capture_context@,
            },
            CollectorEvent::Tick { elapsed_ms, capture_context, at_ms } => CollectorEventV::Tick {
                elapsed_ms: *elapsed_ms,
                capture_context: capture_context@,
                at_ms: *at_ms,
            },
        }
    }
}

} // verus!
