use typepulse::codec::{parse_compact_event, render_compact_event};
use typepulse::config::MenuBarDisplayMode;
use typepulse::format::{escape_csv, format_compact_number, format_hm};
use typepulse::modifier::ModifierSnapshot;
use typepulse::text::{lowercase, normalize_token, parse_i64, parse_u64, trim, u64_to_string};

#[test]
fn bitmask_round_trips_for_every_snapshot() {
    for mask in 0u8..32u8 {
        let snap = ModifierSnapshot::from_bitmask(mask);
        assert_eq!(snap.bitmask(), mask);
        assert_eq!(ModifierSnapshot::from_bitmask(snap.bitmask()), snap);
    }
    let all = ModifierSnapshot { ctrl: true, opt: true, shift: true, cmd: true, function: true };
    assert_eq!(all.bitmask(), 31);
    assert_eq!(all.modifier_count(), 5);
    assert!(all.has_any());
    assert!(all.has_shortcut_modifier());
}

#[test]
fn compact_event_round_trip() {
    let mods = ModifierSnapshot { ctrl: false, opt: false, shift: false, cmd: true, function: false };
    let line = render_compact_event(1234, 'd', "c", mods.bitmask());
    assert_eq!(line, "1234,d,c,8");
    let parsed = parse_compact_event(&line).unwrap();
    assert_eq!(parsed.0, 1234);
    assert_eq!(parsed.1, 'd');
    assert_eq!(parsed.2, "c");
    assert_eq!(parsed.3, mods);
}

#[test]
fn malformed_compact_events_are_rejected() {
    assert!(parse_compact_event("").is_none());
    assert!(parse_compact_event("12").is_none());
    assert!(parse_compact_event("12,d").is_none());
    assert!(parse_compact_event("12,d,c").is_none());
    assert!(parse_compact_event("x,d,c,8").is_none());
    assert!(parse_compact_event("12,,c,8").is_none());
    assert!(parse_compact_event("12,d,c,999").is_none());
    assert!(parse_compact_event("12,d,c,x").is_none());
}

#[test]
fn compact_event_with_comma_key_does_not_round_trip() {
    let line = render_compact_event(0, 'd', ",", 8);
    assert_eq!(line, "0,d,,,8");
    assert!(parse_compact_event(&line).is_none());
}

#[test]
fn decimal_rendering_and_parsing() {
    assert_eq!(u64_to_string(0), "0");
    assert_eq!(u64_to_string(907), "907");
    assert_eq!(u64_to_string(u64::MAX), "18446744073709551615");
    assert_eq!(parse_u64("907"), Some(907));
    assert_eq!(parse_u64("18446744073709551615"), Some(u64::MAX));
    assert_eq!(parse_u64("18446744073709551616"), None);
    assert_eq!(parse_u64(""), None);
    assert_eq!(parse_u64("12a"), None);
    assert_eq!(parse_i64("-42"), Some(-42));
    assert_eq!(parse_i64("+42"), Some(42));
    assert_eq!(parse_i64("-9223372036854775808"), Some(i64::MIN));
    assert_eq!(parse_i64("9223372036854775808"), None);
}

#[test]
fn text_normalization() {
    assert_eq!(lowercase("Com.RoboForm.X"), "com.roboform.x");
    assert_eq!(trim("  a b  "), "a b");
    assert_eq!(normalize_token("  Com.Test.Editor "), "com.test.editor");
    assert_eq!(normalize_token("   "), "");
}

#[test]
fn csv_escaping() {
    assert_eq!(escape_csv("plain"), "plain");
    assert_eq!(escape_csv("a,b"), "\"a,b\"");
    assert_eq!(escape_csv("say \"hi\""), "\"say \"\"hi\"\"\"");
    assert_eq!(escape_csv("two\nlines"), "\"two\nlines\"");
}

#[test]
fn menu_bar_mode_labels_round_trip() {
    for mode in [
        MenuBarDisplayMode::IconOnly,
        MenuBarDisplayMode::TextOnly,
        MenuBarDisplayMode::IconText,
    ] {
        assert_eq!(MenuBarDisplayMode::from_str(mode.as_str()), Some(mode));
    }
    assert_eq!(MenuBarDisplayMode::from_str("sideways"), None);
    assert_eq!(MenuBarDisplayMode::default(), MenuBarDisplayMode::IconText);
}

#[test]
fn tray_summaries() {
    assert_eq!(format_hm(0), "0h 0m");
    assert_eq!(format_hm(3_600_000), "1h 0m");
    assert_eq!(format_hm(5_400_000 + 59_000), "1h 30m");
    assert_eq!(format_compact_number(999), "999");
    assert_eq!(format_compact_number(1000), "1k");
    assert_eq!(format_compact_number(1049), "1k");
    assert_eq!(format_compact_number(1050), "1.1k");
    assert_eq!(format_compact_number(2_500_000), "2.5m");
    assert_eq!(format_compact_number(3_000_000_000), "3b");
}

#[test]
fn clock_wrappers_hand_back_calendar_shapes() {
    let minute = typepulse::clock::current_minute();
    assert!(minute.chars().count() >= 16);
    let day = typepulse::clock::local_date_of_ms(1_706_054_400_000).unwrap();
    assert!(day.chars().count() >= 10);
    let now = typepulse::clock::current_ts_ms();
    let start = typepulse::clock::local_day_start_ms(now);
    assert!(start <= now);
}

#[test]
fn app_bundle_path_finds_last_bundle() {
    let path = "/Applications/Editor.app/Contents/MacOS/editor";
    assert_eq!(
        typepulse::context::app_bundle_path(path).as_deref(),
        Some("/Applications/Editor.app")
    );
    let nested = "/Apps/Outer.app/Inner.app/bin";
    assert_eq!(typepulse::context::app_bundle_path(nested).as_deref(), Some("/Apps/Outer.app/Inner.app"));
    assert_eq!(typepulse::context::app_bundle_path("/usr/bin/true"), None);
}
