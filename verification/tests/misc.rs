use waywallen::control_proto::{
    setting_def_to_proto, setting_type_to_proto, toml_value_to_wire, SettingDef, SettingType,
    SettingValue, SortDirection, WallpaperSortKey,
};
use waywallen::model::sqlite_url;
use waywallen::queue::relative_under_root;
use waywallen::sync::reaper::{
    merge_result, next_flush_action, wait_deadline_nsec, FlushAction, FrameRecord, ReaperState,
    RecordAction, StepResult,
};
use waywallen::text::{compare_text, i64_text, parse_unsigned_text, IntErrorKind};
use waywallen::tray::should_reregister;

#[test]
fn relative_under_root_strips_root_and_slashes() {
    assert_eq!(relative_under_root("/lib/", "/lib/a/b.png").as_deref(), Some("a/b.png"));
    assert_eq!(relative_under_root("/lib///", "/lib//a"), Some("a".to_string()));
    assert_eq!(relative_under_root("/lib", "/lib"), Some(String::new()));
    assert_eq!(relative_under_root("/lib", "/other/a"), None);
    assert_eq!(relative_under_root("/library", "/lib"), None);
    // A sibling whose name begins with the root's last component is outside.
    assert_eq!(relative_under_root("/lib", "/libx/a"), None);
    assert_eq!(relative_under_root("/a/b", "/a/bc/x"), None);
    assert_eq!(relative_under_root("/a/b/", "/a/b/c/x").as_deref(), Some("c/x"));
    assert_eq!(relative_under_root("/", "/a").as_deref(), Some("a"));
    assert_eq!(relative_under_root("", "/a").as_deref(), Some("a"));
}

#[test]
fn join_then_strip_gives_back_relative_path() {
    assert_eq!(relative_under_root("/w", "/w/x/y").as_deref(), Some("x/y"));
    assert_eq!(relative_under_root("/w/", "/w/").as_deref(), Some(""));
}

#[test]
fn toml_values_to_wire() {
    assert_eq!(toml_value_to_wire(&SettingValue::String("hi".to_string())), "hi");
    assert_eq!(toml_value_to_wire(&SettingValue::Integer(-42)), "-42");
    assert_eq!(toml_value_to_wire(&SettingValue::Integer(i64::MIN)), "-9223372036854775808");
    assert_eq!(toml_value_to_wire(&SettingValue::Integer(i64::MAX)), "9223372036854775807");
    assert_eq!(toml_value_to_wire(&SettingValue::Integer(0)), "0");
    assert_eq!(toml_value_to_wire(&SettingValue::Boolean(true)), "true");
    assert_eq!(toml_value_to_wire(&SettingValue::Boolean(false)), "false");
    assert_eq!(toml_value_to_wire(&SettingValue::Rendered("1.5".to_string())), "1.5");
}

#[test]
fn setting_types_to_wire_numbers() {
    assert_eq!(setting_type_to_proto(SettingType::U32), 1);
    assert_eq!(setting_type_to_proto(SettingType::I32), 2);
    assert_eq!(setting_type_to_proto(SettingType::F32), 3);
    assert_eq!(setting_type_to_proto(SettingType::String), 4);
    assert_eq!(setting_type_to_proto(SettingType::Bool), 5);
}

#[test]
fn setting_def_fills_defaults() {
    let def = SettingDef {
        ty: SettingType::I32,
        default: SettingValue::Integer(3),
        identity: true,
        label_key: Some("label".to_string()),
        description_key: None,
        min: Some(SettingValue::Integer(0)),
        max: None,
        step: Some(SettingValue::Rendered("0.5".to_string())),
        choices: None,
        group: Some("g".to_string()),
        order: None,
    };
    let s = setting_def_to_proto("speed", &def);
    assert_eq!(s.key, "speed");
    assert_eq!(s.setting_type, 2);
    assert_eq!(s.default_value, "3");
    assert!(s.identity);
    assert_eq!(s.label_key, "label");
    assert_eq!(s.description_key, "");
    assert_eq!(s.min, "0");
    assert_eq!(s.max, "");
    assert_eq!(s.step, "0.5");
    assert!(s.choices.is_empty());
    assert_eq!(s.group, "g");
    assert_eq!(s.order, 0);

    let def2 = SettingDef {
        choices: Some(vec!["a".to_string(), "b".to_string()]),
        order: Some(-2),
        ..def
    };
    let s2 = setting_def_to_proto("k", &def2);
    assert_eq!(s2.choices, vec!["a".to_string(), "b".to_string()]);
    assert_eq!(s2.order, -2);
}

#[test]
fn sort_enums_round_trip_wire() {
    for k in [
        WallpaperSortKey::Unspecified,
        WallpaperSortKey::Name,
        WallpaperSortKey::WpType,
        WallpaperSortKey::Size,
        WallpaperSortKey::LastModified,
    ] {
        assert_eq!(WallpaperSortKey::from_wire(k.to_wire()), Some(k));
    }
    assert_eq!(WallpaperSortKey::from_wire(5), None);
    assert_eq!(SortDirection::from_wire(SortDirection::Desc.to_wire()), Some(SortDirection::Desc));
    assert_eq!(SortDirection::from_wire(-1), None);
}

#[test]
fn decimal_text_and_parsing() {
    assert_eq!(i64_text(1234567), "1234567");
    assert_eq!(parse_unsigned_text("00042", 100), Ok(42));
    assert_eq!(parse_unsigned_text("101", 100), Err(IntErrorKind::PosOverflow));
    assert_eq!(parse_unsigned_text("1x", 100), Err(IntErrorKind::InvalidDigit));
    assert_eq!(parse_unsigned_text("", 100), Err(IntErrorKind::Empty));
    assert_eq!(parse_unsigned_text("18446744073709551615", u64::MAX), Ok(u64::MAX));
    assert_eq!(parse_unsigned_text("18446744073709551616", u64::MAX), Err(IntErrorKind::PosOverflow));
}

#[test]
fn text_comparison_is_by_code_point() {
    assert_eq!(compare_text("abc", "abd"), -1);
    assert_eq!(compare_text("ab", "a"), 1);
    assert_eq!(compare_text("", ""), 0);
    assert_eq!(compare_text("Z", "a"), -1);
}

#[test]
fn sqlite_url_wraps_path() {
    assert_eq!(sqlite_url("/var/db.sqlite"), "sqlite:///var/db.sqlite?mode=rwc");
}

#[test]
fn tray_reregisters_only_for_watcher_with_owner() {
    assert!(should_reregister("org.kde.StatusNotifierWatcher", Some(":1.42")));
    assert!(!should_reregister("org.kde.StatusNotifierWatcher", Some("")));
    assert!(!should_reregister("org.kde.StatusNotifierWatcher", None));
    assert!(!should_reregister("org.freedesktop.Other", Some(":1.42")));
}

#[test]
fn reaper_flushes_when_all_consumers_signalled() {
    let mut st: ReaperState<u32> = ReaperState::new();
    let a = st.on_record(FrameRecord { release_point: 5, consumer_handle: Some(1), expected_count: 2 }, 100);
    assert!(matches!(a, RecordAction::Pending));
    assert_eq!(st.next_deadline(), Some(600));
    let b = st.on_record(FrameRecord { release_point: 5, consumer_handle: Some(2), expected_count: 2 }, 300);
    match b {
        RecordAction::Flush(p, bucket) => {
            assert_eq!(p, 5);
            assert_eq!(bucket.handles, vec![1, 2]);
            assert_eq!(bucket.expected, 2);
            assert_eq!(bucket.deadline, 600);
        }
        _ => panic!("expected a flush"),
    }
    assert_eq!(st.pending_count(), 0);
    assert_eq!(st.next_deadline(), None);
}

#[test]
fn reaper_widens_expected_count() {
    let mut st: ReaperState<u32> = ReaperState::new();
    assert!(matches!(
        st.on_record(FrameRecord { release_point: 1, consumer_handle: Some(10), expected_count: 1 }, 0),
        RecordAction::Flush(1, _)
    ));
    assert!(matches!(
        st.on_record(FrameRecord { release_point: 2, consumer_handle: Some(10), expected_count: 2 }, 0),
        RecordAction::Pending
    ));
    assert!(matches!(
        st.on_record(FrameRecord { release_point: 2, consumer_handle: Some(11), expected_count: 3 }, 0),
        RecordAction::Pending
    ));
    match st.on_record(FrameRecord { release_point: 2, consumer_handle: Some(12), expected_count: 1 }, 0) {
        RecordAction::Flush(2, bucket) => {
            assert_eq!(bucket.handles, vec![10, 11, 12]);
            assert_eq!(bucket.expected, 3);
        }
        _ => panic!("expected a flush"),
    }
}

#[test]
fn reaper_advances_point_without_recipients() {
    let mut st: ReaperState<u32> = ReaperState::new();
    assert!(matches!(
        st.on_record(FrameRecord { release_point: 9, consumer_handle: None, expected_count: 0 }, 0),
        RecordAction::AdvanceReleasePoint(9)
    ));
    assert_eq!(st.pending_count(), 0);
}

#[test]
fn reaper_expires_old_buckets() {
    let mut st: ReaperState<u32> = ReaperState::new();
    st.on_record(FrameRecord { release_point: 1, consumer_handle: Some(1), expected_count: 3 }, 0);
    st.on_record(FrameRecord { release_point: 2, consumer_handle: Some(2), expected_count: 3 }, 200);
    st.on_record(FrameRecord { release_point: 3, consumer_handle: Some(3), expected_count: 3 }, 400);
    assert_eq!(st.next_deadline(), Some(500));
    let mut expired = st.take_expired(700);
    expired.sort_by_key(|(p, _)| *p);
    let points: Vec<u64> = expired.iter().map(|(p, _)| *p).collect();
    assert_eq!(points, vec![1, 2]);
    assert_eq!(expired[1].1.handles, vec![2]);
    assert_eq!(st.pending_count(), 1);
    assert_eq!(st.next_deadline(), Some(900));
    assert!(st.take_expired(899).is_empty());
}

#[test]
fn flush_steps() {
    let ok = StepResult::Succeeded;
    let bad = StepResult::Failed;
    assert_eq!(next_flush_action(0, FlushAction::Start, ok), FlushAction::Finish);
    assert_eq!(next_flush_action(3, FlushAction::Start, ok), FlushAction::EnsureProducer);
    assert_eq!(next_flush_action(3, FlushAction::EnsureProducer, bad), FlushAction::Finish);
    assert_eq!(next_flush_action(3, FlushAction::Wait, bad), FlushAction::ForceSignal);
    assert_eq!(next_flush_action(3, FlushAction::Wait, StepResult::Aborted), FlushAction::Finish);
    assert_eq!(next_flush_action(1, FlushAction::ForceSignal, ok), FlushAction::TransferSingle);
    assert_eq!(next_flush_action(3, FlushAction::ForceSignal, ok), FlushAction::Export(0));
    assert_eq!(next_flush_action(3, FlushAction::Export(1), ok), FlushAction::Export(2));
    assert_eq!(next_flush_action(3, FlushAction::Export(2), ok), FlushAction::Merge(1));
    assert_eq!(next_flush_action(3, FlushAction::Export(1), bad), FlushAction::TransferFallback);
    assert_eq!(next_flush_action(3, FlushAction::Merge(1), bad), FlushAction::Merge(2));
    assert_eq!(next_flush_action(3, FlushAction::Merge(2), ok), FlushAction::CreateTemp);
    assert_eq!(next_flush_action(3, FlushAction::CreateTemp, bad), FlushAction::Finish);
    assert_eq!(next_flush_action(3, FlushAction::Import, ok), FlushAction::TransferMerged);
    assert_eq!(next_flush_action(3, FlushAction::TransferMerged, bad), FlushAction::Finish);
    assert_eq!(next_flush_action(1, FlushAction::TransferSingle, bad), FlushAction::Finish);
    assert_eq!(merge_result(1, Some(2)), 2);
    assert_eq!(merge_result(1, None), 1);
}

#[test]
fn wait_deadline_saturates() {
    assert_eq!(wait_deadline_nsec(true, 2, 5), 2_500_000_005);
    assert_eq!(wait_deadline_nsec(false, 2, 5), i64::MAX);
    assert_eq!(wait_deadline_nsec(true, i64::MAX / 1_000_000_000 + 1, 0), i64::MAX);
    assert_eq!(wait_deadline_nsec(true, 9_223_372_036, 854_775_807), i64::MAX);
}

#[test]
fn reaper_run_flushes_all_handles_in_order_then_starts_anew() {
    let mut st: ReaperState<u32> = ReaperState::new();
    for (h, e) in [(1u32, 2u32), (2, 4), (3, 1)] {
        assert!(matches!(
            st.on_record(FrameRecord { release_point: 7, consumer_handle: Some(h), expected_count: e }, 10),
            RecordAction::Pending
        ));
    }
    match st.on_record(FrameRecord { release_point: 7, consumer_handle: Some(4), expected_count: 1 }, 20) {
        RecordAction::Flush(7, b) => {
            assert_eq!(b.handles, vec![1, 2, 3, 4]);
            assert_eq!(b.expected, 4);
            assert_eq!(b.deadline, 510);
        }
        _ => panic!("expected a flush"),
    }
    assert!(matches!(
        st.on_record(FrameRecord { release_point: 7, consumer_handle: Some(5), expected_count: 2 }, 30),
        RecordAction::Pending
    ));
    assert_eq!(st.next_deadline(), Some(530));
}

#[test]
fn reaper_deadline_is_kept_across_records() {
    let mut st: ReaperState<u32> = ReaperState::new();
    st.on_record(FrameRecord { release_point: 1, consumer_handle: Some(1), expected_count: 5 }, 100);
    st.on_record(FrameRecord { release_point: 2, consumer_handle: Some(9), expected_count: 5 }, 300);
    st.on_record(FrameRecord { release_point: 1, consumer_handle: Some(2), expected_count: 5 }, 450);
    assert!(st.take_expired(599).is_empty());
    let expired = st.take_expired(600);
    assert_eq!(expired.len(), 1);
    assert_eq!(expired[0].0, 1);
    assert_eq!(expired[0].1.handles, vec![1, 2]);
}
