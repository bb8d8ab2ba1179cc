use writer::model::{BackendEvent, FsChangeKind, FsEntryKind, Timestamp};
use writer::path::{DocId, LocationId};
use writer::watcher::{
    after_reconcile, after_reindex, after_remove, change_kind_from_event_kind, plan_watcher_event,
    relative_path, should_process_watcher_event, ModifyKind, ObservedPath, RemoveKind, WatchAction,
    WatchEventKind,
};

#[test]
fn watcher_filter_allows_create_modify_remove() {
    assert!(should_process_watcher_event(&WatchEventKind::Create));
    assert!(should_process_watcher_event(&WatchEventKind::Modify(ModifyKind::Any)));
    assert!(should_process_watcher_event(&WatchEventKind::Remove(RemoveKind::Any)));
}

#[test]
fn watcher_filter_ignores_non_mutating_events() {
    assert!(!should_process_watcher_event(&WatchEventKind::Any));
    assert!(!should_process_watcher_event(&WatchEventKind::Other));
    assert!(!should_process_watcher_event(&WatchEventKind::Access));
}

#[test]
fn maps_event_kinds_to_fs_change_kind() {
    assert_eq!(change_kind_from_event_kind(&WatchEventKind::Create), FsChangeKind::Created);
    assert_eq!(
        change_kind_from_event_kind(&WatchEventKind::Modify(ModifyKind::Any)),
        FsChangeKind::Modified
    );
    assert_eq!(
        change_kind_from_event_kind(&WatchEventKind::Modify(ModifyKind::Name)),
        FsChangeKind::Renamed
    );
    assert_eq!(
        change_kind_from_event_kind(&WatchEventKind::Remove(RemoveKind::Any)),
        FsChangeKind::Deleted
    );
    assert_eq!(change_kind_from_event_kind(&WatchEventKind::Other), FsChangeKind::Modified);
}

fn file(rel: &str) -> ObservedPath {
    ObservedPath { rel_path: Some(rel.to_string()), exists: true, is_dir: false, is_file: true }
}

fn dir(rel: &str) -> ObservedPath {
    ObservedPath { rel_path: Some(rel.to_string()), exists: true, is_dir: true, is_file: false }
}

fn gone(rel: &str) -> ObservedPath {
    ObservedPath { rel_path: Some(rel.to_string()), exists: false, is_dir: false, is_file: false }
}

fn outside() -> ObservedPath {
    ObservedPath { rel_path: None, exists: true, is_dir: false, is_file: true }
}

fn doc(rel: &str) -> DocId {
    DocId::new(LocationId(3), rel.to_string()).unwrap()
}

#[test]
fn unprocessed_kinds_plan_nothing() {
    let paths = vec![file("a.md")];
    assert!(plan_watcher_event(LocationId(3), WatchEventKind::Access, &paths).is_empty());
    assert!(plan_watcher_event(LocationId(3), WatchEventKind::Any, &paths).is_empty());
    assert!(plan_watcher_event(LocationId(3), WatchEventKind::Other, &paths).is_empty());
}

#[test]
fn created_or_modified_file_is_reindexed() {
    let actions = plan_watcher_event(LocationId(3), WatchEventKind::Create, &vec![file("notes/./a.md")]);
    assert_eq!(
        actions,
        vec![WatchAction::Reindex {
            doc_id: doc("notes/a.md"),
            change_kind: FsChangeKind::Created,
            old_doc_id: None
        }]
    );
    let actions =
        plan_watcher_event(LocationId(3), WatchEventKind::Modify(ModifyKind::Data), &vec![file("a.md")]);
    assert_eq!(
        actions,
        vec![WatchAction::Reindex {
            doc_id: doc("a.md"),
            change_kind: FsChangeKind::Modified,
            old_doc_id: None
        }]
    );
}

#[test]
fn change_on_a_directory_reconciles() {
    let actions = plan_watcher_event(LocationId(3), WatchEventKind::Create, &vec![dir("sub")]);
    assert_eq!(
        actions,
        vec![WatchAction::Reconcile {
            change_kind: FsChangeKind::Created,
            rel_path: "sub".to_string(),
            old_rel_path: None
        }]
    );
}

#[test]
fn removed_file_is_removed_and_removed_directory_reconciles() {
    let actions =
        plan_watcher_event(LocationId(3), WatchEventKind::Remove(RemoveKind::File), &vec![gone("a.md")]);
    assert_eq!(actions, vec![WatchAction::Remove { doc_id: doc("a.md") }]);
    let actions =
        plan_watcher_event(LocationId(3), WatchEventKind::Remove(RemoveKind::Folder), &vec![gone("sub")]);
    assert_eq!(
        actions,
        vec![WatchAction::Reconcile {
            change_kind: FsChangeKind::Deleted,
            rel_path: "sub".to_string(),
            old_rel_path: None
        }]
    );
}

#[test]
fn paths_outside_the_root_and_invalid_paths_are_passed_over() {
    let paths = vec![outside(), file("../escape.md"), file("ok.md"), gone("../x")];
    let actions = plan_watcher_event(LocationId(3), WatchEventKind::Modify(ModifyKind::Any), &paths);
    assert_eq!(
        actions,
        vec![WatchAction::Reindex {
            doc_id: doc("ok.md"),
            change_kind: FsChangeKind::Modified,
            old_doc_id: None
        }]
    );
}

#[test]
fn rename_of_files_removes_old_and_reindexes_new() {
    let paths = vec![gone("old.md"), file("new.md")];
    let actions = plan_watcher_event(LocationId(3), WatchEventKind::Modify(ModifyKind::Name), &paths);
    assert_eq!(
        actions,
        vec![WatchAction::Reindex {
            doc_id: doc("new.md"),
            change_kind: FsChangeKind::Renamed,
            old_doc_id: Some(doc("old.md"))
        }]
    );
}

#[test]
fn rename_with_a_directory_on_either_side_reconciles() {
    let paths = vec![gone("old"), dir("new")];
    let actions = plan_watcher_event(LocationId(3), WatchEventKind::Modify(ModifyKind::Name), &paths);
    assert_eq!(
        actions,
        vec![WatchAction::Reconcile {
            change_kind: FsChangeKind::Renamed,
            rel_path: "new".to_string(),
            old_rel_path: Some("old".to_string())
        }]
    );
    let paths = vec![dir("old"), gone("new")];
    assert_eq!(
        plan_watcher_event(LocationId(3), WatchEventKind::Modify(ModifyKind::Name), &paths).len(),
        1
    );
}

#[test]
fn rename_with_too_few_or_unusable_paths_plans_nothing() {
    let kind = WatchEventKind::Modify(ModifyKind::Name);
    assert!(plan_watcher_event(LocationId(3), kind, &vec![file("a.md")]).is_empty());
    assert!(plan_watcher_event(LocationId(3), kind, &vec![outside(), file("a.md")]).is_empty());
    assert!(plan_watcher_event(LocationId(3), kind, &vec![gone("a.md"), outside()]).is_empty());
    assert!(plan_watcher_event(LocationId(3), kind, &vec![gone("../a.md"), file("b.md")]).is_empty());
    assert!(plan_watcher_event(LocationId(3), kind, &vec![gone("a.md"), file("../b.md")]).is_empty());
}

#[test]
fn follow_up_after_reindex() {
    let id = doc("a.md");
    let t = Timestamp { secs: 10, nanos: 5 };
    let ok = after_reindex(&id, FsChangeKind::Modified, None, true, t);
    assert!(!ok.reconcile);
    assert_eq!(
        ok.events,
        vec![
            BackendEvent::DocModifiedExternally { doc_id: id.clone(), new_mtime: t },
            BackendEvent::FilesystemChanged {
                location_id: LocationId(3),
                entry_kind: FsEntryKind::File,
                change_kind: FsChangeKind::Modified,
                rel_path: "a.md".to_string(),
                old_rel_path: None
            },
        ]
    );
    let old = "b.md".to_string();
    let failed = after_reindex(&id, FsChangeKind::Renamed, Some(&old), false, t);
    assert!(failed.reconcile);
    assert_eq!(
        failed.events,
        vec![BackendEvent::FilesystemChanged {
            location_id: LocationId(3),
            entry_kind: FsEntryKind::File,
            change_kind: FsChangeKind::Renamed,
            rel_path: "a.md".to_string(),
            old_rel_path: Some("b.md".to_string())
        }]
    );
}

#[test]
fn follow_up_after_reconcile_and_remove() {
    let rel = "sub".to_string();
    assert!(after_reconcile(LocationId(3), FsChangeKind::Created, &rel, None, false).is_empty());
    assert_eq!(
        after_reconcile(LocationId(3), FsChangeKind::Created, &rel, None, true),
        vec![BackendEvent::FilesystemChanged {
            location_id: LocationId(3),
            entry_kind: FsEntryKind::Directory,
            change_kind: FsChangeKind::Created,
            rel_path: "sub".to_string(),
            old_rel_path: None
        }]
    );
    let id = doc("a.md");
    let now = Timestamp { secs: 99, nanos: 0 };
    let events = after_remove(&id, now);
    assert_eq!(events.len(), 2);
    assert_eq!(events[0], BackendEvent::DocModifiedExternally { doc_id: id.clone(), new_mtime: now });
    assert_eq!(
        events[1],
        BackendEvent::FilesystemChanged {
            location_id: LocationId(3),
            entry_kind: FsEntryKind::File,
            change_kind: FsChangeKind::Deleted,
            rel_path: "a.md".to_string(),
            old_rel_path: None
        }
    );
}

#[test]
fn relative_path_strips_the_root_by_components() {
    assert_eq!(relative_path("/home/u/docs", "/home/u/docs/a/b.md"), Some("a/b.md".to_string()));
    assert_eq!(relative_path("/home/u/docs/", "/home/u/docs//a.md"), Some("a.md".to_string()));
    assert_eq!(relative_path("/home/u/docs", "/home/u/docs"), None);
    assert_eq!(relative_path("/home/u/docs", "/home/u/docs2/a.md"), None);
    assert_eq!(relative_path("/home/u/docs", "/home/u/a.md"), None);
    assert_eq!(relative_path("/home/u/docs", "home/u/docs/a.md"), None);
    assert_eq!(relative_path("docs", "docs/./a.md"), Some("a.md".to_string()));
}
