use scrcpy_gui::event::Event;
use scrcpy_gui::watcher::{DeviceChanges, DeviceWatcher, RequestedListing, WATCH_INTERVAL_MS};

fn names(list: &[&str]) -> Vec<String> {
    list.iter().map(|s| s.to_string()).collect()
}

#[test]
fn watcher_polls_every_two_seconds() {
    assert_eq!(WATCH_INTERVAL_MS, 2000);
}

fn device_events(events: Vec<Event>) -> Vec<Event> {
    events
        .into_iter()
        .filter(|e| matches!(e, Event::DeviceConnected(_) | Event::DeviceDisconnected(_)))
        .collect()
}

#[test]
fn devices_come_and_go_across_a_failed_probe() {
    let mut watcher = DeviceWatcher::new();
    assert_eq!(
        device_events(watcher.on_probe(Ok(names(&["A", "B"])))),
        vec![Event::DeviceConnected(names(&["A", "B"]))]
    );
    assert_eq!(
        device_events(watcher.on_probe(Ok(names(&["B", "C"])))),
        vec![Event::DeviceConnected(names(&["C"])), Event::DeviceDisconnected(names(&["A"]))]
    );
    assert_eq!(device_events(watcher.on_probe(Err("no adb".to_string()))), Vec::<Event>::new());
    assert_eq!(watcher.present_devices(), names(&["B", "C"]));
    assert_eq!(device_events(watcher.on_probe(Ok(names(&["B", "C"])))), Vec::<Event>::new());
    assert_eq!(watcher.present_devices(), names(&["B", "C"]));
}

#[test]
fn a_failed_probe_is_logged() {
    let mut watcher = DeviceWatcher::new();
    watcher.observe(&names(&["B", "C"]));
    assert_eq!(
        watcher.on_probe(Err("no adb".to_string())),
        vec![Event::DiagnosticLog("[Backend] Failed to read adb devices: no adb\n".to_string())]
    );
    assert_eq!(watcher.on_probe(Ok(names(&["B", "C"]))), Vec::<Event>::new());
}

#[test]
fn first_listing_connects_everything() {
    let mut watcher = DeviceWatcher::new();
    assert_eq!(watcher.present_devices(), Vec::<String>::new());
    let changes = watcher.observe(&names(&["x", "y", "z"]));
    assert_eq!(changes, DeviceChanges { added: names(&["x", "y", "z"]), removed: vec![] });
    let changes = watcher.observe(&vec![]);
    assert_eq!(changes, DeviceChanges { added: vec![], removed: names(&["x", "y", "z"]) });
    assert_eq!(watcher.on_probe(Ok(vec![])), Vec::<Event>::new());
}

#[test]
fn a_listing_counts_each_device_once() {
    let mut watcher = DeviceWatcher::new();
    let changes = watcher.observe(&names(&["a", "b", "a", "c", "b"]));
    assert_eq!(changes, DeviceChanges { added: names(&["a", "b", "c"]), removed: vec![] });
    assert_eq!(watcher.present_devices(), names(&["a", "b", "c"]));
    let changes = watcher.observe(&names(&["c", "c", "d", "a"]));
    assert_eq!(changes, DeviceChanges { added: names(&["d"]), removed: names(&["b"]) });
    assert_eq!(watcher.present_devices(), names(&["c", "d", "a"]));
}

#[test]
fn a_new_order_of_the_same_devices_is_no_change() {
    let mut watcher = DeviceWatcher::new();
    watcher.observe(&names(&["a", "b"]));
    assert_eq!(watcher.on_probe(Ok(names(&["b", "a"]))), Vec::<Event>::new());
    assert_eq!(watcher.present_devices(), names(&["b", "a"]));
}

#[test]
fn failed_probes_keep_the_snapshot() {
    let mut watcher = DeviceWatcher::new();
    watcher.observe(&names(&["a"]));
    for _ in 0..3 {
        let events = watcher.on_probe(Err(String::new()));
        assert_eq!(
            events,
            vec![Event::DiagnosticLog("[Backend] Failed to read adb devices: \n".to_string())]
        );
        assert_eq!(watcher.present_devices(), names(&["a"]));
    }
    assert_eq!(
        watcher.on_probe(Ok(names(&["b"]))),
        vec![Event::DeviceConnected(names(&["b"])), Event::DeviceDisconnected(names(&["a"]))]
    );
}

#[test]
fn a_listing_on_request_leaves_the_watcher_alone() {
    let mut watcher = DeviceWatcher::new();
    watcher.observe(&names(&["a"]));
    let listed = watcher.on_request(Ok(names(&["b", "b", "c"])));
    assert_eq!(listed, RequestedListing { result: Ok(names(&["b", "b", "c"])), log: vec![] });
    assert_eq!(watcher.present_devices(), names(&["a"]));
    assert_eq!(
        watcher.on_probe(Ok(names(&["b", "c"]))),
        vec![Event::DeviceConnected(names(&["b", "c"])), Event::DeviceDisconnected(names(&["a"]))]
    );
}

#[test]
fn a_device_first_seen_on_request_is_still_reported() {
    let mut watcher = DeviceWatcher::new();
    assert_eq!(watcher.on_request(Ok(names(&["A"]))).result, Ok(names(&["A"])));
    assert_eq!(watcher.present_devices(), Vec::<String>::new());
    assert_eq!(watcher.on_probe(Ok(names(&["A"]))), vec![Event::DeviceConnected(names(&["A"]))]);
}

#[test]
fn a_failed_listing_on_request_is_logged_and_handed_back() {
    let mut watcher = DeviceWatcher::new();
    watcher.observe(&names(&["a"]));
    let failed = watcher.on_request(Err("no adb".to_string()));
    assert_eq!(
        failed,
        RequestedListing {
            result: Err("no adb".to_string()),
            log: vec![Event::DiagnosticLog(
                "[Backend] Failed to get connected devices: no adb\n".to_string()
            )],
        }
    );
    assert_eq!(watcher.present_devices(), names(&["a"]));
}

#[test]
fn monitoring_is_started_once() {
    let mut watcher = DeviceWatcher::new();
    assert!(!watcher.is_monitoring());
    let first = watcher.start().unwrap();
    assert!(watcher.is_monitoring());
    assert!(watcher.continues(&first));
    assert_eq!(watcher.start(), None);
    assert!(watcher.continues(&first));
    watcher.stop();
    assert!(!watcher.is_monitoring());
    assert!(!watcher.continues(&first));
    watcher.stop();
    assert!(!watcher.continues(&first));
}

#[test]
fn a_stopped_loop_ends_though_monitoring_starts_again() {
    let mut watcher = DeviceWatcher::new();
    let first = watcher.start().unwrap();
    watcher.stop();
    let second = watcher.start().unwrap();
    assert!(first != second);
    assert!(watcher.is_monitoring());
    assert!(!watcher.continues(&first));
    assert!(watcher.continues(&second));
    watcher.on_probe(Ok(names(&["a"])));
    assert!(!watcher.continues(&first));
    assert_eq!(watcher.start(), None);
    assert!(!watcher.continues(&first));
    assert!(watcher.continues(&second));
    watcher.stop();
    let third = watcher.start().unwrap();
    assert!(!watcher.continues(&first));
    assert!(!watcher.continues(&second));
    assert!(watcher.continues(&third));
}

#[test]
fn monitoring_does_not_touch_the_snapshot() {
    let mut watcher = DeviceWatcher::new();
    watcher.observe(&names(&["a"]));
    watcher.start();
    watcher.stop();
    assert_eq!(watcher.present_devices(), names(&["a"]));
    assert_eq!(watcher.on_probe(Ok(names(&["a"]))), Vec::<Event>::new());
}

#[test]
fn events_name_their_channels() {
    assert_eq!(Event::DeviceConnected(vec![]).channel(), "device-connected");
    assert_eq!(Event::DeviceDisconnected(vec![]).channel(), "device-disconnected");
    assert_eq!(scrcpy_gui::event::session_log("d", "line\n").channel(), "scrcpy-log");
    assert_eq!(scrcpy_gui::event::session_ended("d".to_string(), Some(1)).channel(), "scrcpy-exit");
    assert_eq!(Event::DiagnosticLog(String::new()).channel(), "app-log");
}

#[test]
fn session_events_carry_what_they_were_given() {
    assert_eq!(
        scrcpy_gui::event::session_log("dev", "INFO: ready\n"),
        Event::SessionLog { device_id: "dev".to_string(), line: "INFO: ready\n".to_string() }
    );
    assert_eq!(
        scrcpy_gui::event::session_ended("dev".to_string(), None),
        Event::SessionEnded { device_id: "dev".to_string(), exit_status: None }
    );
}
