use writer::capture::{
    capture_result, capture_text, generate_quick_note_path, plan_capture, require_text,
    tray_pause_label, tray_shortcut_status, tray_target_status, LocalMoment,
};
use writer::catalog::Store;
use writer::docmeta::FileStat;
use writer::docops::SavePlan;
use writer::error::ErrorCode;
use writer::events::{after_save, startup_events};
use writer::model::{BackendEvent, SavePolicy, Timestamp};
use writer::path::{join_path, DocId, LocationId};
use writer::settings::{CaptureDocRef, CaptureMode, GlobalCaptureSettings};
use writer::watcher::is_path_within_location;

#[test]
fn generate_quick_note_path_uses_inbox_year_and_markdown_extension() {
    let moment =
        LocalMoment { year: 2024, month: 3, day: 7, hour: 9, minute: 5, second: 1, millisecond: 42 };
    let path = generate_quick_note_path("inbox", moment);
    let parts: Vec<&str> = path.split('/').collect();

    assert!(parts.len() >= 3);
    assert_eq!(parts[0], "inbox");
    assert_eq!(parts[1].len(), 4);
    assert!(parts[2].ends_with(".md"));
    assert_eq!(path, "inbox/2024/2024-03-07_09-05-01.042.md");
}

#[test]
fn quick_note_path_pads_every_field() {
    let moment = LocalMoment { year: 7, month: 12, day: 31, hour: 23, minute: 59, second: 59, millisecond: 999 };
    assert_eq!(generate_quick_note_path("in/", moment), "in/0007/0007-12-31_23-59-59.999.md");
    let zero = LocalMoment { year: 0, month: 0, day: 0, hour: 0, minute: 0, second: 0, millisecond: 0 };
    assert_eq!(generate_quick_note_path("", zero), "0000/0000-00-00_00-00-00.000.md");
}

#[test]
fn validate_shortcut_rejects_empty_shortcut() {
    assert!(require_text("", "Shortcut cannot be empty").is_err());
    let err = require_text("   ", "Shortcut cannot be empty").unwrap_err();
    assert_eq!(err.code, ErrorCode::InvalidPath);
    assert_eq!(err.message, "Shortcut cannot be empty");
    assert!(require_text(" Alt+KeyN ", "Shortcut cannot be empty").is_ok());
}

#[test]
fn tray_labels() {
    assert_eq!(tray_pause_label(true), "Resume Shortcut");
    assert_eq!(tray_pause_label(false), "Pause Shortcut");
    let mut settings = GlobalCaptureSettings::default();
    assert_eq!(tray_shortcut_status(&settings), "Shortcut: CommandOrControl+Shift+Space");
    assert_eq!(tray_target_status(&settings), "Last target: none");
    settings.paused = true;
    settings.last_capture_target = Some("Inbox/Daily".to_string());
    assert_eq!(tray_shortcut_status(&settings), "Shortcut: Paused (CommandOrControl+Shift+Space)");
    assert_eq!(tray_target_status(&settings), "Last target: Inbox/Daily");
    settings.enabled = false;
    assert_eq!(tray_shortcut_status(&settings), "Shortcut: Disabled");
}

fn saved(store: &mut Store, location: LocationId, rel: &str) -> (DocId, writer::model::SaveResult) {
    let id = DocId::new(location, rel.to_string()).unwrap();
    let stat = FileStat { size_bytes: 1, mtime: Timestamp { secs: 77, nanos: 1 }, created_at: None };
    let result = store.doc_save(&id, "x", Ok(stat), Timestamp { secs: 78, nanos: 0 }).unwrap();
    (id, result)
}

#[test]
fn save_is_announced_and_conflicts_first() {
    let mut store = Store::new();
    let location = store.location_add("L".to_string(), "/l".to_string(), Timestamp { secs: 1, nanos: 0 }).unwrap().id;
    let now = Timestamp { secs: 500, nanos: 0 };
    let (id, result) = saved(&mut store, location, "notes/plain.md");
    assert_eq!(
        after_save(&id, &result, now),
        vec![BackendEvent::DocModifiedExternally { doc_id: id.clone(), new_mtime: Timestamp { secs: 77, nanos: 1 } }]
    );
    let (id, result) = saved(&mut store, location, "notes/plain (conflicted copy).md");
    let events = after_save(&id, &result, now);
    assert_eq!(events.len(), 2);
    assert_eq!(
        events[0],
        BackendEvent::ConflictDetected {
            location_id: location,
            rel_path: "notes/plain (conflicted copy).md".to_string(),
            conflict_filename: "plain (conflicted copy).md".to_string(),
        }
    );
    assert!(matches!(events[1], BackendEvent::DocModifiedExternally { .. }));
    let mut bare = result.clone();
    bare.new_meta = None;
    bare.conflict_detected = false;
    assert_eq!(after_save(&id, &bare, now), vec![BackendEvent::DocModifiedExternally { doc_id: id, new_mtime: now }]);
}

#[test]
fn startup_announces_missing_roots_and_then_completion() {
    let missing = vec![(LocationId(4), "/gone/a".to_string()), (LocationId(2), "/gone/b".to_string())];
    let events = startup_events(5, &missing);
    assert_eq!(
        events,
        vec![
            BackendEvent::LocationMissing { location_id: LocationId(4), path: "/gone/a".to_string() },
            BackendEvent::LocationMissing { location_id: LocationId(2), path: "/gone/b".to_string() },
            BackendEvent::ReconciliationComplete { checked: 5, missing: vec![LocationId(4), LocationId(2)] },
        ]
    );
    assert_eq!(
        startup_events(0, &vec![]),
        vec![BackendEvent::ReconciliationComplete { checked: 0, missing: vec![] }]
    );
}

#[test]
fn atomic_save_makes_its_temporary_file_beside_the_target() {
    let mut store = Store::new();
    let location = store.location_add("L".to_string(), "/root".to_string(), Timestamp { secs: 1, nanos: 0 }).unwrap().id;
    let id = DocId::new(location, "a/b/c.md".to_string()).unwrap();
    let plan = store.plan_save(&id, None).unwrap();
    assert_eq!(plan, SavePlan { target: "/root/a/b/c.md".to_string(), temp_dir: Some("/root/a/b".to_string()) });
    assert_eq!(store.plan_save(&id, Some(SavePolicy::Atomic)).unwrap(), plan);
    let in_place = store.plan_save(&id, Some(SavePolicy::InPlace)).unwrap();
    assert_eq!(in_place.temp_dir, None);
    assert_eq!(in_place.target, "/root/a/b/c.md");
    let top = DocId::new(location, "top.md".to_string()).unwrap();
    assert_eq!(store.plan_save(&top, None).unwrap().temp_dir, Some("/root".to_string()));
    let nowhere = DocId::new(LocationId(99), "a.md".to_string()).unwrap();
    assert_eq!(store.plan_save(&nowhere, None).unwrap_err().code, ErrorCode::NotFound);
    assert_eq!(store.next_location_id(), 2);
}

#[test]
fn containment_is_by_components() {
    assert!(is_path_within_location("/home/u/docs/a.md", "/home/u/docs"));
    assert!(is_path_within_location("/home/u/docs", "/home/u/docs/"));
    assert!(is_path_within_location("/home/u/docs/./a/b", "/home/u//docs"));
    assert!(!is_path_within_location("/home/u/docs2/a.md", "/home/u/docs"));
    assert!(!is_path_within_location("/home/u", "/home/u/docs"));
    assert!(!is_path_within_location("home/u/docs/a.md", "/home/u/docs"));
    assert!(is_path_within_location("a/b", ""));
}

#[test]
fn join_path_follows_the_rules_of_paths() {
    assert_eq!(join_path("/root", "a"), "/root/a");
    assert_eq!(join_path("/root/", "a"), "/root/a");
    assert_eq!(join_path("", "a"), "a");
    assert_eq!(join_path("/root", "/abs"), "/abs");
    assert_eq!(join_path("/root", ""), "/root/");
}

fn noon() -> LocalMoment {
    LocalMoment { year: 2025, month: 6, day: 1, hour: 12, minute: 0, second: 0, millisecond: 0 }
}

#[test]
fn capture_plans_for_each_mode() {
    let none = None;
    let plan = plan_capture(CaptureMode::QuickNote, "idea", None, Some(LocationId(3)), "inbox", &none, true, noon())
        .unwrap();
    assert_eq!(plan.doc_id, DocId::new(LocationId(3), "inbox/2025/2025-06-01_12-00-00.000.md".to_string()).unwrap());
    assert!(!plan.append);
    assert!(plan.should_close);
    assert_eq!(plan.saved_to, "inbox/2025/2025-06-01_12-00-00.000.md");
    assert_eq!(plan.last_capture_target, "3/inbox/2025/2025-06-01_12-00-00.000.md");

    let plan = plan_capture(CaptureMode::WritingSession, "idea", Some(8), None, "in", &none, true, noon()).unwrap();
    assert_eq!(plan.doc_id.location_id, LocationId(8));
    assert!(!plan.should_close);

    let target = Some(CaptureDocRef { location_id: 5, rel_path: "notes/./daily.md".to_string() });
    let plan = plan_capture(CaptureMode::Append, "more", Some(8), None, "in", &target, false, noon()).unwrap();
    assert!(plan.append);
    assert_eq!(plan.doc_id, DocId::new(LocationId(5), "notes/daily.md".to_string()).unwrap());
    assert_eq!(plan.saved_to, "notes/./daily.md");
    assert_eq!(plan.last_capture_target, "5/notes/./daily.md");
    let result = capture_result(&plan, true);
    assert!(result.success && !result.should_close);
    assert_eq!(result.location_id, 5);
    assert_eq!(result.saved_to, Some("notes/./daily.md".to_string()));
    assert_eq!(result.last_capture_target, Some("5/notes/./daily.md".to_string()));

    assert_eq!(capture_text("", "new"), "new");
    assert_eq!(capture_text("old", "new"), "old\n\nnew");
}

#[test]
fn capture_refusals_come_in_order() {
    let none = None;
    let err = plan_capture(CaptureMode::QuickNote, "  \n", None, None, "inbox", &none, true, noon()).unwrap_err();
    assert_eq!((err.code, err.message.as_str()), (ErrorCode::InvalidPath, "Capture text cannot be empty"));
    let err = plan_capture(CaptureMode::Append, "x", None, None, "inbox", &none, true, noon()).unwrap_err();
    assert_eq!(err.code, ErrorCode::NotFound);
    assert_eq!(err.message, "No location configured. Please add a location first.");
    let err = plan_capture(CaptureMode::Append, "x", Some(1), None, "inbox", &none, true, noon()).unwrap_err();
    assert_eq!((err.code, err.message.as_str()), (ErrorCode::InvalidPath, "No append target configured"));
    let bad = Some(CaptureDocRef { location_id: 1, rel_path: "../x.md".to_string() });
    let err = plan_capture(CaptureMode::Append, "x", Some(1), None, "inbox", &bad, true, noon()).unwrap_err();
    assert_eq!(err.message, "Path traversal attempt detected");
    let err = plan_capture(CaptureMode::QuickNote, "x", Some(1), None, "/abs", &none, true, noon()).unwrap_err();
    assert_eq!(err.message, "Absolute paths are not allowed as relative paths");
    let negative = plan_capture(CaptureMode::QuickNote, "x", Some(-4), None, "in", &none, true, noon()).unwrap();
    assert!(negative.last_capture_target.starts_with("-4/in/2025/"));
}
