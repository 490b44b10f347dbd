use typepulse::persist::{
    group_rows_by_day, merge_analytics, rows_to_stats, stats_to_rows, JsonFileStorage,
    StoredInputAnalytics, StoredRow,
};
use typepulse::state::{InputEventChunk, ShortcutUsageValue};

fn stored_row(date: &str, app: &str, window: &str, ms: u64, keys: u64, sessions: u64) -> StoredRow {
    StoredRow {
        date: String::from(date),
        app_name: String::from(app),
        window_title: String::from(window),
        active_typing_ms: ms,
        key_count: keys,
        session_count: sessions,
    }
}

#[test]
fn save_and_load_round_trip() {
    let stats = rows_to_stats(vec![
        stored_row("2026-02-09 10:00", "AppA", "WindowA", 1200, 12, 2),
        stored_row("2026-02-10 10:01", "AppB", "WindowB", 800, 8, 1),
    ]);
    let saved = stats_to_rows(&stats);
    assert_eq!(saved.len(), 2);
    let loaded = rows_to_stats(saved);
    assert_eq!(loaded.len(), 2);
    let a = loaded
        .iter()
        .find(|p| p.0.date == "2026-02-09 10:00" && p.0.app_name == "AppA" && p.0.window_title == "WindowA")
        .unwrap();
    assert_eq!(a.1.active_typing_ms, 1200);
    assert_eq!(a.1.key_count, 12);
    assert_eq!(a.1.session_count, 2);
}

#[test]
fn daily_shard_round_trip() {
    let rows = vec![
        stored_row("2026-02-09 10:00", "AppA", "WindowA", 1200, 12, 2),
        stored_row("2026-02-10 10:01", "AppB", "WindowB", 800, 8, 1),
        stored_row("2026-02-09 10:00", "AppA", "WindowA", 100, 1, 0),
    ];
    let groups = group_rows_by_day(rows);
    assert_eq!(groups.len(), 2);
    assert_eq!(groups[0].0, "2026-02-09");
    assert_eq!(groups[0].1.len(), 2);
    assert_eq!(groups[1].0, "2026-02-10");
    assert_eq!(groups[1].1.len(), 1);

    let storage = JsonFileStorage { path: String::from("/data/typingstats-details.json") };
    assert_eq!(
        storage.dated_path("2026-02-09").as_deref(),
        Some("/data/2026-02-09-typingstats-details.json")
    );
    assert_eq!(
        storage.analytics_dated_path("2026-02-09").as_deref(),
        Some("/data/2026-02-09-analytics-typingstats-details.json")
    );
    assert_eq!(storage.analytics_daily_suffix().as_deref(), Some("-analytics-typingstats-details.json"));
    assert_eq!(
        storage.analytics_path().as_deref(),
        Some("/data/analytics-typingstats-details.json")
    );

    let mut reloaded_rows: Vec<StoredRow> = Vec::new();
    for (_, day_rows) in groups {
        reloaded_rows.extend(day_rows);
    }
    let loaded = rows_to_stats(reloaded_rows);
    assert_eq!(loaded.len(), 2);
    let a = loaded
        .iter()
        .find(|p| p.0.app_name == "AppA")
        .unwrap();
    assert_eq!(a.1.active_typing_ms, 1300);
    assert_eq!(a.1.key_count, 13);
    assert_eq!(a.1.session_count, 2);
}

#[test]
fn rows_sharing_a_key_are_summed() {
    let loaded = rows_to_stats(vec![
        stored_row("2026-02-09 10:00", "AppA", "WindowA", 100, 1, 1),
        stored_row("2026-02-09 10:00", "AppA", "WindowA", 50, 2, 0),
    ]);
    assert_eq!(loaded.len(), 1);
    assert_eq!(loaded[0].1.active_typing_ms, 150);
    assert_eq!(loaded[0].1.key_count, 3);
    assert_eq!(loaded[0].1.session_count, 1);
}

#[test]
fn date_prefix_needs_a_full_day() {
    assert_eq!(JsonFileStorage::date_prefix("2026-02-09 10:00").as_deref(), Some("2026-02-09"));
    assert_eq!(JsonFileStorage::date_prefix("short"), None);
}

#[test]
fn analytics_round_trip() {
    let mut merged = StoredInputAnalytics {
        shortcut_usage: Vec::new(),
        app_dict: Vec::new(),
        next_app_ref: 0,
        event_chunks: Vec::new(),
    };
    let payload = StoredInputAnalytics {
        shortcut_usage: Vec::new(),
        app_dict: vec![(1, String::from("com.test.editor"))],
        next_app_ref: 2,
        event_chunks: vec![InputEventChunk {
            v: 1,
            chunk_start_ms: 1_706_054_400_000,
            app_ref: 1,
            events: vec![String::from("0,d,c,8")],
        }],
    };
    merge_analytics(&mut merged, payload);
    assert_eq!(merged.next_app_ref, 2);
    assert_eq!(merged.event_chunks.len(), 1);
    assert_eq!(merged.event_chunks[0].events.len(), 1);
    assert!(merged.shortcut_usage.is_empty());
}

#[test]
fn merge_analytics_sums_usage_and_keeps_first_labels() {
    let mut merged = StoredInputAnalytics {
        shortcut_usage: vec![(
            String::from("cmd_z"),
            ShortcutUsageValue { count: 2, by_app: vec![(String::from("a"), 2)] },
        )],
        app_dict: vec![(1, String::from("first"))],
        next_app_ref: 2,
        event_chunks: Vec::new(),
    };
    let from = StoredInputAnalytics {
        shortcut_usage: vec![(
            String::from("cmd_z"),
            ShortcutUsageValue {
                count: 3,
                by_app: vec![(String::from("a"), 1), (String::from("b"), 2)],
            },
        )],
        app_dict: vec![(1, String::from("second")), (7, String::from("third"))],
        next_app_ref: 8,
        event_chunks: Vec::new(),
    };
    merge_analytics(&mut merged, from);
    assert_eq!(merged.shortcut_usage.len(), 1);
    assert_eq!(merged.shortcut_usage[0].1.count, 5);
    assert_eq!(merged.shortcut_usage[0].1.by_app.len(), 2);
    assert_eq!(merged.shortcut_usage[0].1.by_app[0], (String::from("a"), 3));
    assert_eq!(merged.shortcut_usage[0].1.by_app[1], (String::from("b"), 2));
    assert_eq!(merged.app_dict.len(), 2);
    assert_eq!(merged.app_dict[0].1, "first");
    assert_eq!(merged.next_app_ref, 8);
}

#[test]
fn loaded_chunks_rebuild_shortcut_usage() {
    let mut config = typepulse::config::AppConfig::default();
    config.excluded_bundle_ids = Vec::new();
    let analytics = StoredInputAnalytics {
        shortcut_usage: Vec::new(),
        app_dict: vec![(1, String::from("com.test.editor"))],
        next_app_ref: 2,
        event_chunks: vec![InputEventChunk {
            v: 1,
            chunk_start_ms: 1_706_054_400_000,
            app_ref: 1,
            events: vec![String::from("0,d,c,8"), String::from("40,u,c,8")],
        }],
    };
    let state = typepulse::persist::new_collector_state(
        String::from("log.csv"),
        String::from("app.log"),
        &config,
        Vec::new(),
        analytics,
    );
    let shot = typepulse::api::snapshot(&state);
    assert_eq!(shot.shortcut_stats.len(), 1);
    assert_eq!(shot.shortcut_stats[0].shortcut_id, "cmd_c");
    assert_eq!(shot.shortcut_stats[0].count, 1);
    assert_eq!(shot.shortcut_stats[0].apps[0].app_name, "com.test.editor");
}
