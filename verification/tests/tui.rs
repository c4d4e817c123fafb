//! Terminal UI state.

use droidprobe::parser::model::{Component, PackageDetail, PackageRef, Permission};
use droidprobe::tui::{filter_packages, truncate, App, DetailTab, Key, PackagesState, View};

fn pkg(name: &str) -> PackageRef {
    PackageRef { name: name.to_string(), system: false }
}

#[test]
fn views_cycle_in_order() {
    let mut app: App<u32> = App::new();
    assert_eq!(app.view, View::Overview);
    assert_eq!(app.view.title(), "Overview");
    app.next_view();
    assert_eq!(app.view, View::Packages);
    app.next_view();
    assert_eq!(app.view.title(), "Logs");
    app.next_view();
    assert_eq!(app.view, View::Overview);
}

#[test]
fn detail_tabs_cycle_both_ways() {
    let mut t = DetailTab::default();
    assert_eq!(t, DetailTab::Permissions);
    let mut titles = Vec::new();
    for _ in 0..5 {
        titles.push(t.title());
        t = t.next();
    }
    assert_eq!(titles, vec!["Permissions", "Activities", "Services", "Receivers", "Providers"]);
    assert_eq!(t, DetailTab::Permissions);
    assert_eq!(DetailTab::Permissions.prev(), DetailTab::Providers);
    assert_eq!(DetailTab::Services.prev().next(), DetailTab::Services);
}

#[test]
fn detail_tab_components() {
    let detail = PackageDetail {
        services: vec![Component { name: "S".into(), intent_actions: vec![], permission: None }],
        ..Default::default()
    };
    assert!(DetailTab::Permissions.components(&detail).is_none());
    assert_eq!(DetailTab::Services.components(&detail).unwrap().len(), 1);
    assert_eq!(DetailTab::Activities.components(&detail).unwrap().len(), 0);
}

#[test]
fn selection_moves_are_clamped() {
    let mut s = PackagesState::default();
    s.move_selection(5, 3);
    assert_eq!(s.selected, 2);
    s.move_selection(-10, 3);
    assert_eq!(s.selected, 0);
    s.move_selection(1, 3);
    assert_eq!(s.selected, 1);
    s.move_selection(1, 0);
    assert_eq!(s.selected, 1);
    s.move_perm_selection(4, 10);
    assert_eq!(s.perm_selected, 4);
    s.move_component_selection(-1, 10);
    assert_eq!(s.component_selected, 0);
}

#[test]
fn cycling_tabs_resets_component_selection() {
    let mut s = PackagesState::default();
    s.move_component_selection(3, 10);
    s.cycle_tab(true);
    assert_eq!(s.detail_tab, DetailTab::Activities);
    assert_eq!(s.component_selected, 0);
    s.cycle_tab(false);
    s.cycle_tab(false);
    assert_eq!(s.detail_tab, DetailTab::Providers);
}

#[test]
fn stale_detail_results_are_dropped() {
    let mut s = PackagesState::default();
    s.pending = Some("com.b".into());
    s.perm_selected = 3;
    s.apply_detail_result("com.a", Ok(PackageDetail::default()));
    assert_eq!(s.pending.as_deref(), Some("com.b"));
    assert_eq!(s.perm_selected, 3);
    assert!(s.detail.is_none());
    s.apply_detail_result("com.b", Err("boom".into()));
    assert!(s.pending.is_none());
    assert_eq!(s.perm_selected, 0);
    assert_eq!(s.detail_error.as_deref(), Some("boom"));
    s.pending = Some("com.c".into());
    let d = PackageDetail { name: "com.c".into(), ..Default::default() };
    s.apply_detail_result("com.c", Ok(d));
    assert_eq!(s.detail.as_ref().unwrap().name, "com.c");
    assert!(s.detail_error.is_none());
}

#[test]
fn snapshots_keep_the_latest_result_per_id() {
    let mut app: App<u32> = App::new();
    assert!(app.snapshot_ok("battery.status").is_none());
    assert!(app.snapshot_err("battery.status").is_none());
    app.apply_update("battery.status".into(), Ok(1));
    assert_eq!(app.snapshot_ok("battery.status"), Some(&1));
    app.apply_update("battery.status".into(), Err("no device".into()));
    assert!(app.snapshot_ok("battery.status").is_none());
    assert_eq!(app.snapshot_err("battery.status"), Some("no device"));
    app.apply_update("device.info".into(), Ok(7));
    assert_eq!(app.snapshot_ok("device.info"), Some(&7));
    assert_eq!(app.snapshot_err("battery.status"), Some("no device"));
}

#[test]
fn empty_query_keeps_the_whole_list() {
    let all = vec![pkg("com.b"), pkg("com.a")];
    let out = filter_packages(all.clone(), "");
    assert_eq!(out, all);
}

#[test]
fn fuzzy_query_keeps_matches_best_first() {
    let all = vec![pkg("org.other"), pkg("com.spotify.music"), pkg("com.sp.tiny"), pkg("com.example")];
    let out = filter_packages(all, "spotify");
    let names: Vec<&str> = out.iter().map(|p| p.name.as_str()).collect();
    assert_eq!(names[0], "com.spotify.music");
    assert!(!names.contains(&"org.other"));
    assert!(!names.contains(&"com.example"));
}

#[test]
fn truncation_is_by_bytes_with_an_ellipsis() {
    assert_eq!(truncate("hello", 10), "hello");
    assert_eq!(truncate("hello", 5), "hello");
    assert_eq!(truncate("hello world", 5), "hello…");
    assert_eq!(truncate("héllo", 3), "hé…");
    assert_eq!(truncate("abc", 0), "…");
}

#[test]
fn keys_drive_search_and_navigation() {
    let mut app: App<u32> = App::new();
    app.on_key(Key::Tab, 0);
    assert_eq!(app.view, View::Packages);
    app.on_key(Key::Char('/'), 3);
    assert!(app.packages.search_active);
    app.on_key(Key::Char('q'), 3);
    app.on_key(Key::Char('x'), 3);
    assert_eq!(app.packages.search, "qx");
    assert!(app.running);
    app.on_key(Key::Backspace, 3);
    assert_eq!(app.packages.search, "q");
    app.on_key(Key::Enter, 3);
    assert!(!app.packages.search_active);
    assert_eq!(app.packages.search, "q");
    app.on_key(Key::Down, 3);
    app.on_key(Key::Down, 3);
    app.on_key(Key::Down, 3);
    assert_eq!(app.packages.selected, 2);
    app.on_key(Key::Up, 3);
    assert_eq!(app.packages.selected, 1);
    app.on_key(Key::Right, 3);
    assert_eq!(app.packages.detail_tab, DetailTab::Activities);
    app.on_key(Key::Char('/'), 3);
    app.on_key(Key::Esc, 3);
    assert!(!app.packages.search_active);
    assert_eq!(app.packages.search, "");
    assert_eq!(app.packages.selected, 0);
    assert!(app.running);
    app.on_key(Key::Esc, 3);
    assert!(!app.running);
}

#[test]
fn page_keys_scroll_the_shown_detail_table() {
    let mut app: App<u32> = App::new();
    app.view = View::Packages;
    app.on_key(Key::PageDown, 1);
    assert_eq!(app.packages.perm_selected, 0);
    let perms = (0..8)
        .map(|i| Permission { name: format!("p{i}"), ..Default::default() })
        .collect();
    app.packages.detail = Some(PackageDetail { permissions: perms, ..Default::default() });
    app.on_key(Key::PageDown, 1);
    assert_eq!(app.packages.perm_selected, 5);
    app.on_key(Key::PageDown, 1);
    assert_eq!(app.packages.perm_selected, 7);
    app.on_key(Key::Right, 1);
    app.on_key(Key::PageDown, 1);
    assert_eq!(app.packages.component_selected, 0);
    assert_eq!(app.packages.perm_selected, 7);
}

#[test]
fn detail_follows_the_cursor_once() {
    let mut app: App<u32> = App::new();
    let visible = vec![pkg("com.a"), pkg("com.b")];
    assert_eq!(app.sync_detail(&visible), None);
    app.view = View::Packages;
    assert_eq!(app.sync_detail(&visible), Some("com.a".to_string()));
    assert_eq!(app.packages.pending.as_deref(), Some("com.a"));
    assert_eq!(app.sync_detail(&visible), None);
    app.packages.apply_detail_result("com.a", Ok(PackageDetail { name: "com.a".into(), ..Default::default() }));
    assert_eq!(app.sync_detail(&visible), None);
    app.packages.move_selection(1, visible.len());
    assert_eq!(app.sync_detail(&visible), Some("com.b".to_string()));
    assert!(app.packages.detail.is_none());
    app.packages.selected = 5;
    assert_eq!(app.sync_detail(&visible), None);
}
