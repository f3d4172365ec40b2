use activity_ledger::app_map::AppMap;
use activity_ledger::capture::ScreenCaptureInfo;
use activity_ledger::day_archive::DayArchive;
use activity_ledger::permissions::PermissionState;
use activity_ledger::permissions::PermissionStatus;
use activity_ledger::storage::DataPaths;
use activity_ledger::window::DisplayInfo;
use activity_ledger::window::WindowConfig;

fn s(name: &str) -> String {
    name.to_string()
}

#[test]
fn app_map_get_set_add() {
    let mut m = AppMap::new();
    assert_eq!(m.len(), 0);
    assert_eq!(m.get(&s("A")), None);

    m.add_secs(&s("A"), 10);
    assert_eq!(m.get(&s("A")), Some(10));
    m.add_secs(&s("A"), 5);
    assert_eq!(m.get(&s("A")), Some(15));

    m.set_secs(&s("A"), 3);
    assert_eq!(m.get(&s("A")), Some(3));
    m.set_secs(&s("B"), 8);
    assert_eq!(m.len(), 2);
    assert_eq!(m.pair(0), (s("A"), 3));
    assert_eq!(m.pair(1), (s("B"), 8));
    assert_eq!(m.value_at(1), 8);

    m.clear();
    assert_eq!(m.len(), 0);
    assert_eq!(m.get(&s("A")), None);
}

#[test]
fn day_archive_insert_get_overwrite() {
    let mut a = DayArchive::new();
    assert!(a.get(7).is_none());

    let mut day7 = AppMap::new();
    day7.set_secs(&s("A"), 1);
    a.insert(7, day7);
    assert_eq!(a.get(7).unwrap().get(&s("A")), Some(1));

    let mut replacement = AppMap::new();
    replacement.set_secs(&s("B"), 2);
    a.insert(7, replacement);
    let stored = a.get(7).unwrap();
    assert_eq!(stored.get(&s("A")), None);
    assert_eq!(stored.get(&s("B")), Some(2));
    assert!(a.get(8).is_none());
}

#[test]
fn window_config_default_placement() {
    let c = WindowConfig::default();
    assert_eq!(c.x, 100);
    assert_eq!(c.y, 100);
    assert_eq!(c.width, 480);
    assert_eq!(c.height, 800);
    assert_eq!(c.display_id, None);
    assert!(!c.is_fullscreen);
    assert!(!c.is_borderless);
}

#[test]
fn permission_types_compare() {
    let status = PermissionStatus {
        screen_recording: PermissionState::Granted,
        microphone: PermissionState::Unknown,
    };
    assert_eq!(status.screen_recording, PermissionState::Granted);
    assert_ne!(status.microphone, PermissionState::Denied);
    let copy = status;
    assert_eq!(copy.microphone, PermissionState::Unknown);
}

#[test]
fn display_and_screen_records_hold_fields() {
    let d = DisplayInfo {
        id: s("display_0"),
        name: s("Built-in"),
        x: 0,
        y: 0,
        width: 2560,
        height: 1440,
        is_primary: true,
    };
    assert_eq!(d.id, s("display_0"));
    assert!(d.is_primary);

    let sc = ScreenCaptureInfo {
        index: 1,
        name: s("Display 2"),
        width: 1920,
        height: 1080,
        is_primary: false,
    };
    assert_eq!(sc.index, 1);
    assert_eq!(sc.width, 1920);
}

#[test]
fn data_paths_hold_fields() {
    let p = DataPaths {
        data_folder: s("/home/user/Desktop/WOPR"),
        config_file: s("/home/user/.config/app/config.yaml"),
        brain_dir: s("/home/user/Desktop/WOPR/brain"),
        plugins_dir: s("/home/user/Desktop/WOPR/plugins"),
        captures_dir: s("/home/user/Desktop/WOPR/captures"),
        logs_dir: s("/home/user/Desktop/WOPR/logs"),
        default_folder: s("/home/user/Desktop/WOPR"),
    };
    assert_eq!(p.brain_dir, s("/home/user/Desktop/WOPR/brain"));
    assert_eq!(p.data_folder, p.default_folder);
}
