use writer::session::{tab_id, SessionState, SessionTab};
use writer::settings::{
    default_calm_ui_enabled, default_calm_ui_focus_mode, default_editor_font_family,
    default_editor_font_size, default_focus_dimming_mode,
    default_focus_typewriter_scrolling_enabled, default_global_capture_shortcut, default_inbox_dir,
    default_true, get_markdown_help, CaptureDocRef, CaptureMode, FocusDimmingMode,
    GlobalCaptureSettings, StyleCheckCategorySettings, StyleCheckSettings, StyleMarkerStyle,
    UiLayoutSettings,
};

fn doc(location_id: i64, rel_path: &str) -> CaptureDocRef {
    CaptureDocRef { location_id, rel_path: rel_path.to_string() }
}

#[test]
fn test_session_open_select_close_round_trip() {
    let mut session = SessionState::default();
    let first_doc = doc(1, "notes/a.md");
    let second_doc = doc(1, "notes/b.md");

    session.open_tab(first_doc.clone(), "A".to_string());
    assert_eq!(session.tabs.len(), 1);
    let first_tab_id = session.tabs[0].id.clone();
    assert_eq!(session.active_tab_id, Some(first_tab_id.clone()));

    session.open_tab(first_doc.clone(), "A".to_string());
    assert_eq!(session.tabs.len(), 1);
    assert_eq!(session.active_tab_id, Some(first_tab_id.clone()));

    session.open_tab(second_doc.clone(), "B".to_string());
    assert_eq!(session.tabs.len(), 2);
    let second_tab_id = session.tabs[1].id.clone();
    assert_eq!(session.active_tab_id, Some(second_tab_id.clone()));

    assert!(session.select_tab(&first_tab_id));
    assert_eq!(session.active_tab_id, Some(first_tab_id.clone()));

    assert!(session.close_tab(&first_tab_id));
    assert_eq!(session.tabs.len(), 1);
    assert_eq!(session.tabs[0].doc_ref, second_doc);
    assert_eq!(session.active_tab_id, Some(second_tab_id));
}

#[test]
fn test_session_reorder_mark_and_update_doc() {
    let mut session = SessionState::default();
    let first_doc = doc(7, "first.md");
    let second_doc = doc(7, "second.md");

    session.open_tab(first_doc.clone(), "First".to_string());
    let first_tab_id = session.tabs[0].id.clone();
    session.open_tab(second_doc.clone(), "Second".to_string());
    let second_tab_id = session.tabs[1].id.clone();

    assert!(session.reorder_tabs(&vec![second_tab_id.clone(), first_tab_id.clone()]));
    assert_eq!(session.tabs[0].id, second_tab_id);
    assert_eq!(session.tabs[1].id, first_tab_id.clone());

    assert!(session.mark_tab_modified(&first_tab_id, true));
    let marked_tab = session.tabs.iter().find(|tab| tab.id == first_tab_id).unwrap();
    assert!(marked_tab.is_modified);
    assert!(!session.mark_tab_modified(&first_tab_id, true));

    assert!(session.update_tab_doc(7, "first.md", &doc(7, "renamed.md"), "Renamed"));
    let renamed_tab = session.tabs.iter().find(|tab| tab.id == first_tab_id).unwrap();
    assert_eq!(renamed_tab.doc_ref.rel_path, "renamed.md");
    assert_eq!(renamed_tab.title, "Renamed");
    assert!(!session.update_tab_doc(7, "first.md", &doc(7, "x.md"), "X"));
}

#[test]
fn test_session_prunes_locations_and_syncs_last_open_doc() {
    let mut session = SessionState::default();
    session.open_tab(doc(10, "keep.md"), "Keep".to_string());
    session.open_tab(doc(20, "drop.md"), "Drop".to_string());

    assert!(session.prune_locations(&vec![10]));
    assert_eq!(session.tabs.len(), 1);
    assert_eq!(session.tabs[0].doc_ref.location_id, 10);
    assert_eq!(session.active_document(), Some(session.tabs[0].doc_ref.clone()));
    assert!(!session.prune_locations(&vec![10, 30]));

    assert!(session.drop_doc(10, "keep.md"));
    assert!(session.tabs.is_empty());
    assert!(session.active_document().is_none());
    assert_eq!(session.active_tab_id, None);
    assert!(!session.drop_doc(10, "keep.md"));
}

#[test]
fn tab_ids_count_up_from_one() {
    let mut session = SessionState::default();
    assert_eq!(session.next_tab_id, 1);
    session.open_tab(doc(1, "a.md"), "A".to_string());
    session.open_tab(doc(1, "b.md"), "B".to_string());
    assert_eq!(session.tabs[0].id, "tab-1");
    assert_eq!(session.tabs[1].id, "tab-2");
    assert_eq!(session.next_tab_id, 3);
    assert_eq!(tab_id(0), "tab-0");
    assert_eq!(tab_id(1234567890), "tab-1234567890");
    assert_eq!(tab_id(u64::MAX), "tab-18446744073709551615");
}

#[test]
fn closing_the_active_tab_activates_its_neighbour() {
    let mut session = SessionState::default();
    for name in ["a.md", "b.md", "c.md"] {
        session.open_tab(doc(1, name), name.to_string());
    }
    assert!(session.select_tab("tab-2"));
    assert!(session.close_tab("tab-2"));
    assert_eq!(session.active_tab_id, Some("tab-3".to_string()));
    assert!(session.close_tab("tab-3"));
    assert_eq!(session.active_tab_id, Some("tab-1".to_string()));
    assert!(!session.close_tab("tab-9"));
    assert!(!session.select_tab("tab-9"));
    assert!(session.close_tab("tab-1"));
    assert_eq!(session.active_tab_id, None);
}

#[test]
fn closing_another_tab_keeps_the_active_one() {
    let mut session = SessionState::default();
    session.open_tab(doc(1, "a.md"), "A".to_string());
    session.open_tab(doc(1, "b.md"), "B".to_string());
    assert!(session.close_tab("tab-1"));
    assert_eq!(session.active_tab_id, Some("tab-2".to_string()));
}

fn tab(id: &str, rel: &str) -> SessionTab {
    SessionTab { id: id.to_string(), doc_ref: doc(1, rel), title: rel.to_string(), is_modified: false }
}

#[test]
fn normalize_drops_blank_and_repeated_identifiers() {
    let mut session = SessionState {
        tabs: vec![tab("", "x.md"), tab("t1", "a.md"), tab("t2", "b.md"), tab("t1", "c.md")],
        active_tab_id: Some("gone".to_string()),
        next_tab_id: 0,
    };
    session.normalize();
    assert_eq!(session.tabs.len(), 2);
    assert_eq!(session.tabs[0].doc_ref.rel_path, "a.md");
    assert_eq!(session.tabs[1].id, "t2");
    assert_eq!(session.active_tab_id, Some("t1".to_string()));
    assert_eq!(session.next_tab_id, 1);

    let mut kept = SessionState {
        tabs: vec![tab("t1", "a.md"), tab("t2", "b.md")],
        active_tab_id: Some("t2".to_string()),
        next_tab_id: 5,
    };
    let before = kept.copy();
    kept.normalize();
    assert_eq!(kept, before);

    let mut empty = SessionState { tabs: vec![], active_tab_id: Some("t".to_string()), next_tab_id: 3 };
    empty.normalize();
    assert_eq!(empty.active_tab_id, None);
    assert_eq!(empty.next_tab_id, 3);
}

#[test]
fn reorder_keeps_unnamed_tabs_behind_in_their_order() {
    let mut session = SessionState::default();
    for name in ["a.md", "b.md", "c.md", "d.md"] {
        session.open_tab(doc(1, name), name.to_string());
    }
    assert!(session.reorder_tabs(&vec![
        "tab-3".to_string(),
        "nope".to_string(),
        "tab-1".to_string(),
        "tab-3".to_string()
    ]));
    let ids: Vec<&str> = session.tabs.iter().map(|t| t.id.as_str()).collect();
    assert_eq!(ids, vec!["tab-3", "tab-1", "tab-2", "tab-4"]);
    assert_eq!(session.active_tab_id, Some("tab-4".to_string()));
    let mut none = SessionState::default();
    assert!(!none.reorder_tabs(&vec!["tab-1".to_string()]));
}

#[test]
fn test_ui_layout_settings_defaults() {
    let settings = UiLayoutSettings::default();
    assert!(!settings.sidebar_collapsed);
    assert!(!settings.top_bars_collapsed);
    assert!(!settings.status_bar_collapsed);
    assert!(!settings.reduce_motion);
    assert!(settings.line_numbers_visible);
    assert!(settings.text_wrapping_enabled);
    assert!(settings.syntax_highlighting_enabled);
    assert_eq!(settings.editor_font_size, 16);
    assert_eq!(settings.editor_font_family, "IBM Plex Mono");
    assert!(settings.focus_typewriter_scrolling_enabled);
    assert_eq!(settings.focus_dimming_mode, FocusDimmingMode::Sentence);
    assert!(settings.create_readme_in_new_locations);
}

#[test]
fn test_style_check_settings_defaults() {
    let settings = StyleCheckSettings::default();
    assert!(!settings.enabled);
    assert_eq!(settings.categories, StyleCheckCategorySettings { filler: true, redundancy: true, cliche: true });
    assert!(settings.custom_patterns.is_empty());
    assert_eq!(settings.marker_style, StyleMarkerStyle::Highlight);
    assert_eq!(StyleCheckCategorySettings::default(), settings.categories);
}

#[test]
fn test_global_capture_settings_defaults() {
    let settings = GlobalCaptureSettings::default();
    assert!(settings.enabled);
    assert_eq!(settings.shortcut, "CommandOrControl+Shift+Space");
    assert!(!settings.paused);
    assert_eq!(settings.default_mode, CaptureMode::QuickNote);
    assert!(settings.target_location_id.is_none());
    assert_eq!(settings.inbox_relative_dir, "inbox");
    assert!(settings.append_target.is_none());
    assert!(settings.close_after_save);
    assert!(settings.show_tray_icon);
    assert!(settings.last_capture_target.is_none());
}

#[test]
fn default_helpers_and_markdown_help() {
    assert!(default_true());
    assert!(default_calm_ui_enabled());
    assert!(default_calm_ui_focus_mode());
    assert!(default_focus_typewriter_scrolling_enabled());
    assert_eq!(default_editor_font_size(), 16);
    assert_eq!(default_editor_font_family(), "IBM Plex Mono");
    assert_eq!(default_global_capture_shortcut(), "CommandOrControl+Shift+Space");
    assert_eq!(default_inbox_dir(), "inbox");
    assert_eq!(default_focus_dimming_mode(), FocusDimmingMode::Sentence);
    assert_eq!(FocusDimmingMode::default(), FocusDimmingMode::Sentence);
    assert_eq!(CaptureMode::default(), CaptureMode::QuickNote);
    assert!(get_markdown_help().starts_with("# Markdown Guide for Writer"));
}
