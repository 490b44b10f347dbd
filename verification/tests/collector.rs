use typepulse::api::{
    set_ignore_key_combos, set_shortcut_rules, snapshot, snapshot_rows, StatsRow,
};
use typepulse::config::AppConfig;
use typepulse::event::{CaptureContext, CollectorEvent};
use typepulse::events::{apply_collector_event, should_ignore_keypress};
use typepulse::modifier::ModifierSnapshot;
use typepulse::persist::{StoredInputAnalytics, StoredRow};
use typepulse::shortcut::{normalize_shortcut_id, should_count_shortcut};
use typepulse::state::CollectorState;

fn empty_analytics() -> StoredInputAnalytics {
    StoredInputAnalytics {
        shortcut_usage: Vec::new(),
        app_dict: Vec::new(),
        next_app_ref: 0,
        event_chunks: Vec::new(),
    }
}

fn build_state(rows: Vec<StoredRow>) -> CollectorState {
    let mut config = AppConfig::default();
    config.excluded_bundle_ids = Vec::new();
    typepulse::persist::new_collector_state(
        String::from("log.csv"),
        String::from("app.log"),
        &config,
        rows,
        empty_analytics(),
    )
}

fn stored_row(date: &str, app: &str, window: &str, ms: u64, keys: u64, sessions: u64) -> StoredRow {
    StoredRow {
        date: String::from(date),
        app_name: String::from(app),
        window_title: String::from(window),
        active_typing_ms: ms,
        key_count: keys,
        session_count: sessions,
    }
}

fn editor_context(secure_input: bool) -> CaptureContext {
    CaptureContext {
        app_name: String::from("Editor"),
        window_title: String::from("Doc"),
        bundle_id: Some(String::from("com.test.editor")),
        secure_input,
    }
}

const MINUTE: &str = "2026-02-09 10:00";

fn key_down(state: &mut CollectorState, key_id: &str, is_key_combo: bool, at_ms: u64) {
    apply_collector_event(
        state,
        CollectorEvent::NonModifierKeyDown {
            physical_key_id: String::from(key_id),
            shortcut_key: String::from(key_id),
            modifiers: ModifierSnapshot::default(),
            is_key_combo,
            capture_context: editor_context(false),
            minute: String::from(MINUTE),
            at_ms,
        },
    );
}

fn key_up(state: &mut CollectorState, key_id: &str) {
    apply_collector_event(
        state,
        CollectorEvent::NonModifierKeyUp {
            physical_key_id: String::from(key_id),
            shortcut_key: String::from(key_id),
            modifiers: ModifierSnapshot::default(),
            capture_context: editor_context(false),
        },
    );
}

fn tick(state: &mut CollectorState, elapsed_ms: u64, at_ms: u64) {
    apply_collector_event(
        state,
        CollectorEvent::Tick { elapsed_ms, capture_context: editor_context(false), at_ms },
    );
}

fn tick_with_context(state: &mut CollectorState, elapsed_ms: u64, at_ms: u64, ctx: CaptureContext) {
    apply_collector_event(
        state,
        CollectorEvent::Tick { elapsed_ms, capture_context: ctx, at_ms },
    );
}

fn rows(state: &CollectorState) -> Vec<StatsRow> {
    snapshot_rows(state).unwrap()
}

#[test]
fn snapshot_rows_sorted_by_keys() {
    let state = build_state(vec![
        stored_row("2026-02-09 10:01", "B", "TitleB", 500, 5, 1),
        stored_row("2026-02-09 10:00", "A", "TitleA", 800, 8, 2),
    ]);
    let rows = snapshot_rows(&state).unwrap();
    assert_eq!(rows.len(), 2);
    assert_eq!(rows[0].date, "2026-02-09 10:00");
    assert_eq!(rows[0].app_name, "A");
    assert_eq!(rows[1].date, "2026-02-09 10:01");
    assert_eq!(rows[1].app_name, "B");
}

#[test]
fn should_ignore_keypress_only_when_both_enabled_and_combo() {
    assert!(!should_ignore_keypress(false, false));
    assert!(!should_ignore_keypress(false, true));
    assert!(!should_ignore_keypress(true, false));
    assert!(should_ignore_keypress(true, true));
}

#[test]
fn set_ignore_key_combos_reflects_in_snapshot() {
    let mut state = build_state(Vec::new());
    assert!(!snapshot(&state).ignore_key_combos);
    set_ignore_key_combos(&mut state, true);
    assert!(snapshot(&state).ignore_key_combos);
    set_ignore_key_combos(&mut state, false);
    assert!(!snapshot(&state).ignore_key_combos);
}

#[test]
fn repeated_key_down_is_counted_once_until_key_up() {
    let mut state = build_state(Vec::new());
    key_down(&mut state, "k:a", false, 0);
    key_down(&mut state, "k:a", false, 100);

    let rows1 = rows(&state);
    assert_eq!(rows1.len(), 1);
    assert_eq!(rows1[0].key_count, 1);

    key_up(&mut state, "k:a");
    key_down(&mut state, "k:a", false, 200);

    let rows2 = rows(&state);
    assert_eq!(rows2[0].key_count, 2);
}

#[test]
fn active_typing_ms_is_accumulated_from_tick_while_key_held() {
    let mut state = build_state(Vec::new());
    key_down(&mut state, "k:a", false, 0);
    tick(&mut state, 1200, 1200);

    let rows1 = rows(&state);
    assert_eq!(rows1.len(), 1);
    assert_eq!(rows1[0].active_typing_ms, 1200);
}

#[test]
fn event_stream_stops_accumulating_after_key_up() {
    let mut state = build_state(Vec::new());
    key_down(&mut state, "k:a", false, 0);
    tick(&mut state, 500, 500);
    key_up(&mut state, "k:a");
    tick(&mut state, 700, 1200);

    let rows1 = rows(&state);
    assert_eq!(rows1.len(), 1);
    assert_eq!(rows1[0].active_typing_ms, 500);
    assert_eq!(rows1[0].key_count, 1);
}

#[test]
fn auto_pause_tick_resets_pressed_state_until_new_key_down() {
    let mut state = build_state(Vec::new());
    key_down(&mut state, "k:a", false, 0);
    tick(&mut state, 500, 500);
    tick_with_context(&mut state, 300, 800, editor_context(true));
    tick(&mut state, 400, 1200);
    key_down(&mut state, "k:a", false, 1300);
    tick(&mut state, 200, 1500);

    let rows1 = rows(&state);
    assert_eq!(rows1.len(), 1);
    assert_eq!(rows1[0].key_count, 2);
    assert_eq!(rows1[0].active_typing_ms, 700);
}

#[test]
fn ignore_key_combo_event_is_not_counted_in_event_stream() {
    let mut state = build_state(Vec::new());
    set_ignore_key_combos(&mut state, true);

    key_down(&mut state, "k:a", true, 0);
    tick(&mut state, 300, 300);
    key_down(&mut state, "k:a", false, 400);
    tick(&mut state, 200, 600);

    let rows1 = rows(&state);
    assert_eq!(rows1.len(), 1);
    assert_eq!(rows1[0].key_count, 1);
    assert_eq!(rows1[0].active_typing_ms, 200);
}

#[test]
fn first_key_down_opens_a_session() {
    let mut state = build_state(Vec::new());
    key_down(&mut state, "k:a", false, 0);
    key_down(&mut state, "k:a", false, 100);
    tick(&mut state, 1200, 1200);
    let rows1 = rows(&state);
    assert_eq!(rows1.len(), 1);
    assert_eq!(rows1[0].key_count, 1);
    assert_eq!(rows1[0].active_typing_ms, 1200);
    assert_eq!(rows1[0].session_count, 1);
}

#[test]
fn tick_without_held_key_accumulates_nothing() {
    let mut state = build_state(Vec::new());
    tick(&mut state, 700, 700);
    assert!(rows(&state).is_empty());
    key_down(&mut state, "k:a", false, 1000);
    key_up(&mut state, "k:a");
    tick(&mut state, 500, 1500);
    let rows1 = rows(&state);
    assert_eq!(rows1[0].active_typing_ms, 0);
}

#[test]
fn shortcut_admission_follows_rules() {
    let mut state = build_state(Vec::new());
    set_shortcut_rules(&mut state, true, false, 1, &Vec::new(), &Vec::new());

    let cmd = ModifierSnapshot { ctrl: false, opt: false, shift: false, cmd: true, function: false };
    let opt = ModifierSnapshot { ctrl: false, opt: true, shift: false, cmd: false, function: false };
    let none = ModifierSnapshot::default();

    assert_eq!(normalize_shortcut_id(cmd, "z"), "cmd_z");
    assert_eq!(normalize_shortcut_id(opt, "z"), "opt_z");
    assert_eq!(normalize_shortcut_id(none, "z"), "z");

    assert!(should_count_shortcut(&state, cmd, "cmd_z"));
    assert!(!should_count_shortcut(&state, opt, "opt_z"));
    assert!(!should_count_shortcut(&state, none, "z"));
}

#[test]
fn admitted_shortcut_appears_in_leaderboard_under_canonical_id() {
    let mut state = build_state(Vec::new());
    let cmd = ModifierSnapshot { ctrl: false, opt: false, shift: false, cmd: true, function: false };
    apply_collector_event(
        &mut state,
        CollectorEvent::NonModifierKeyDown {
            physical_key_id: String::from("k:z"),
            shortcut_key: String::from("z"),
            modifiers: cmd,
            is_key_combo: true,
            capture_context: editor_context(false),
            minute: String::from(MINUTE),
            at_ms: 0,
        },
    );
    let shot = snapshot(&state);
    assert_eq!(shot.shortcut_stats.len(), 1);
    assert_eq!(shot.shortcut_stats[0].shortcut_id, "cmd_z");
    assert_eq!(shot.shortcut_stats[0].count, 1);
    assert_eq!(shot.shortcut_stats[0].apps.len(), 1);
    assert_eq!(shot.shortcut_stats[0].apps[0].app_name, "com.test.editor");
}

#[test]
fn blocklist_wins_over_allowlist() {
    let mut state = build_state(Vec::new());
    let allow = vec![String::from("cmd_z")];
    let block = vec![String::from("cmd_z")];
    set_shortcut_rules(&mut state, true, false, 1, &allow, &block);
    let cmd = ModifierSnapshot { ctrl: false, opt: false, shift: false, cmd: true, function: false };
    assert!(!should_count_shortcut(&state, cmd, "cmd_z"));
}

#[test]
fn excluded_bundle_blocks_capture() {
    let mut state = build_state(Vec::new());
    assert!(typepulse::api::add_excluded_bundle_id(&mut state, "  Com.Test.Editor "));
    assert!(!typepulse::api::add_excluded_bundle_id(&mut state, "com.test.editor"));
    key_down(&mut state, "k:a", false, 0);
    assert!(rows(&state).is_empty());
    assert!(typepulse::api::remove_excluded_bundle_id(&mut state, "com.test.editor"));
    assert!(!typepulse::api::remove_excluded_bundle_id(&mut state, "com.test.editor"));
    key_down(&mut state, "k:a", false, 100);
    assert_eq!(rows(&state)[0].key_count, 1);
}

#[test]
fn clear_stats_empties_every_aggregate() {
    let mut state = build_state(Vec::new());
    key_down(&mut state, "k:a", false, 0);
    tick(&mut state, 500, 500);
    assert_eq!(rows(&state).len(), 1);
    typepulse::api::clear_stats(&mut state);
    assert!(rows(&state).is_empty());
    assert!(snapshot(&state).shortcut_stats.is_empty());
}

#[test]
fn rebuilt_usage_matches_window_query_over_all_time() {
    let mut state = build_state(Vec::new());
    let cmd = ModifierSnapshot { ctrl: false, opt: false, shift: false, cmd: true, function: false };
    for (at, key) in [(0u64, "z"), (100u64, "c")] {
        apply_collector_event(
            &mut state,
            CollectorEvent::NonModifierKeyDown {
                physical_key_id: format!("k:{}", key),
                shortcut_key: String::from(key),
                modifiers: cmd,
                is_key_combo: true,
                capture_context: editor_context(false),
                minute: String::from(MINUTE),
                at_ms: at,
            },
        );
    }
    let windowed = typepulse::shortcut::snapshot_shortcut_rows_in_window(&state, i64::MIN, i64::MAX);
    assert_eq!(windowed.len(), 2);
    assert_eq!(windowed[0].count, 1);
    assert_eq!(windowed[0].shortcut_id, "cmd_c");
    assert_eq!(windowed[1].shortcut_id, "cmd_z");
    let empty_window = typepulse::shortcut::snapshot_shortcut_rows_in_window(&state, 0, 0);
    assert!(empty_window.is_empty());
}

#[test]
fn pause_resets_held_keys() {
    let mut state = build_state(Vec::new());
    key_down(&mut state, "k:a", false, 0);
    typepulse::api::set_paused(&mut state, true);
    typepulse::api::set_paused(&mut state, false);
    tick(&mut state, 400, 400);
    assert_eq!(rows(&state)[0].active_typing_ms, 0);
}

#[test]
fn alt_only_shortcut_needs_permission() {
    let mut state = build_state(Vec::new());
    let opt = ModifierSnapshot { ctrl: false, opt: true, shift: false, cmd: false, function: false };
    set_shortcut_rules(&mut state, false, false, 1, &Vec::new(), &Vec::new());
    assert!(!should_count_shortcut(&state, opt, "opt_z"));
    set_shortcut_rules(&mut state, false, true, 1, &Vec::new(), &Vec::new());
    assert!(should_count_shortcut(&state, opt, "opt_z"));
    set_shortcut_rules(&mut state, false, true, 2, &Vec::new(), &Vec::new());
    assert!(!should_count_shortcut(&state, opt, "opt_z"));
}

#[test]
fn secure_input_reason_wins_and_shows_in_snapshot() {
    let mut state = build_state(Vec::new());
    assert!(typepulse::api::add_excluded_bundle_id(&mut state, "com.test.editor"));
    tick_with_context(&mut state, 100, 100, editor_context(true));
    let shot = snapshot(&state);
    assert!(shot.auto_paused);
    assert_eq!(shot.auto_pause_reason.as_deref(), Some("secure_input"));
    tick_with_context(&mut state, 100, 200, editor_context(false));
    let shot = snapshot(&state);
    assert!(shot.auto_paused);
    assert_eq!(shot.auto_pause_reason.as_deref(), Some("blacklist"));
}

#[test]
fn snapshot_sorts_and_dedups_exclusions() {
    let mut state = build_state(Vec::new());
    let messy = vec![
        String::from(" B.app "),
        String::from("a.app"),
        String::from("B.APP"),
        String::from("   "),
    ];
    typepulse::api::set_excluded_bundle_ids(&mut state, &messy);
    let shot = snapshot(&state);
    assert_eq!(shot.excluded_bundle_ids, vec![String::from("a.app"), String::from("b.app")]);
}

#[test]
fn range_snapshot_sees_fresh_events_today_only() {
    let mut state = build_state(Vec::new());
    let cmd = ModifierSnapshot { ctrl: false, opt: false, shift: false, cmd: true, function: false };
    apply_collector_event(
        &mut state,
        CollectorEvent::NonModifierKeyDown {
            physical_key_id: String::from("k:z"),
            shortcut_key: String::from("z"),
            modifiers: cmd,
            is_key_combo: true,
            capture_context: editor_context(false),
            minute: String::from(MINUTE),
            at_ms: 0,
        },
    );
    let today = typepulse::shortcut::snapshot_shortcut_rows_by_range(&state, "today");
    assert_eq!(today.len(), 1);
    assert_eq!(today[0].shortcut_id, "cmd_z");
    let yesterday = typepulse::shortcut::snapshot_shortcut_rows_by_range(&state, "yesterday");
    assert!(yesterday.is_empty());
    let week = typepulse::shortcut::snapshot_shortcut_rows_by_range(&state, "7d");
    assert_eq!(week.len(), 1);
}

#[test]
fn config_normalization_sorts_and_drops_empty_entries() {
    let mut config = AppConfig::default();
    config.excluded_bundle_ids = vec![
        String::from("  Z.app"),
        String::from(""),
        String::from("a.APP"),
        String::from("z.app"),
    ];
    let normalized = typepulse::config::normalize_excluded_bundle_ids(config);
    assert_eq!(
        normalized.excluded_bundle_ids,
        vec![String::from("a.app"), String::from("z.app")]
    );
    assert_eq!(normalized.session_gap_secs, 5);
}

#[test]
fn interval_floors_at_one_second() {
    let mut config = AppConfig::default();
    config.collector_tick_interval_secs = 0;
    config.session_gap_secs = 7;
    assert_eq!(config.collector_tick_interval(), 1000);
    assert_eq!(config.session_gap(), 7000);
    assert_eq!(config.tray_update_interval(), 1000);
    assert_eq!(config.flush_interval(), 60_000);
}
