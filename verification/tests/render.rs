//! What the terminal UI puts on screen.

use droidprobe::parser::model::{
    Component, CpuInfo, DeviceInfo, PackageDetail, PackageRef, Permission, ProtectionLevel,
    ScreenInfo, StorageEntry,
};
use droidprobe::render::{
    android_row, component_cells, cpu_row, detail_pane, detail_title, empty_components_message,
    field_row, granted_text, help_line, highlighted_row, level_icon, level_text, model_row,
    overview_storage_entry, package_item_text, package_list_title, pending_text,
    permission_counts, screen_row, view_index, DetailPane, HelpLine,
};
use droidprobe::tui::{DetailTab, PackagesState, View};

#[test]
fn list_rows_and_titles() {
    let p = PackageRef { name: "com.a".into(), system: true };
    assert_eq!(package_item_text(&p), "[s] com.a");
    let q = PackageRef { name: "com.b".into(), system: false };
    assert_eq!(package_item_text(&q), "com.b");
    assert_eq!(package_list_title(true, 3, 120), "Packages (120)");
    assert_eq!(package_list_title(false, 3, 120), "Packages (3/120)");
    assert_eq!(package_list_title(true, 0, 0), "Packages (0)");
    assert_eq!(highlighted_row(7, 3), Some(2));
    assert_eq!(highlighted_row(1, 3), Some(1));
    assert_eq!(highlighted_row(0, 0), None);
}

#[test]
fn detail_pane_states() {
    let mut s = PackagesState::default();
    assert_eq!(detail_pane(&s), DetailPane::Choose);
    assert_eq!(detail_title(&s), "package");
    s.detail = Some(PackageDetail { name: "com.x".into(), ..Default::default() });
    assert_eq!(detail_pane(&s), DetailPane::Detail);
    assert_eq!(detail_title(&s), "com.x");
    s.detail_error = Some("bad".into());
    assert_eq!(detail_pane(&s), DetailPane::Failed);
    s.pending = Some("com.y".into());
    assert_eq!(detail_pane(&s), DetailPane::Fetching);
    assert_eq!(detail_title(&s), "com.y");
}

#[test]
fn permission_rows_and_counts() {
    let perms = vec![
        Permission { name: "a".into(), granted: true, protection_level: ProtectionLevel::Dangerous },
        Permission { name: "b".into(), granted: false, protection_level: ProtectionLevel::Dangerous },
        Permission { name: "c".into(), granted: true, protection_level: ProtectionLevel::Normal },
    ];
    let d = PackageDetail { permissions: perms, ..Default::default() };
    assert_eq!(permission_counts(&d), (2, 2));
    assert_eq!(level_text(ProtectionLevel::Signature), "signature");
    assert_eq!(level_icon(ProtectionLevel::Dangerous), "🔴");
    assert_eq!(granted_text(false), "⛔  denied");
}

#[test]
fn component_rows() {
    let c = Component {
        name: "com.a/.Main".into(),
        intent_actions: vec!["android.intent.action.MAIN".into(), "x.Y".into()],
        permission: None,
    };
    let (name, actions, perm) = component_cells(&c, Some("com.a/.Main"));
    assert_eq!(name, "🚀 com.a/.Main");
    assert_eq!(actions, "android.intent.action.MAIN, x.Y");
    assert_eq!(perm, "—");
    let bare = Component { name: "S".into(), intent_actions: vec![], permission: Some("P".into()) };
    assert_eq!(component_cells(&bare, None), ("S".to_string(), "—".to_string(), "P".to_string()));
    assert_eq!(empty_components_message(DetailTab::Services), "none declared with an intent-filter");
    assert!(empty_components_message(DetailTab::Providers).starts_with("no providers shown"));
}

#[test]
fn help_and_tabs() {
    assert_eq!(help_line(View::Packages, true), HelpLine::Searching);
    assert_eq!(help_line(View::Packages, false), HelpLine::Packages);
    assert_eq!(help_line(View::Logs, true), HelpLine::General);
    assert_eq!(view_index(View::Logs), 2);
}

#[test]
fn overview_picks_the_data_partition() {
    let e = |m: &str| StorageEntry { mounted_on: m.into(), ..Default::default() };
    assert_eq!(overview_storage_entry(&vec![]), None);
    assert_eq!(overview_storage_entry(&vec![e("/dev"), e("/data"), e("/data")]), Some(1));
    assert_eq!(overview_storage_entry(&vec![e("/dev"), e("/mnt")]), Some(0));
}

#[test]
fn pending_rows_show_the_error_or_a_fetch_note() {
    assert_eq!(pending_text(None), "⏳  fetching…");
    assert_eq!(pending_text(Some("boom")), "⚠️  error: boom");
    let long = "x".repeat(60);
    assert_eq!(pending_text(Some(&long)), format!("⚠️  error: {}…", "x".repeat(50)));
}

#[test]
fn identity_rows_fall_back_in_order() {
    let p = || "⏳  fetching…".to_string();
    assert_eq!(field_row(Some("R58M"), true, "n/a", p()), "R58M");
    assert_eq!(field_row(Some(""), true, "n/a", p()), "n/a");
    assert_eq!(field_row(None, true, "n/a", p()), "n/a");
    assert_eq!(field_row(None, false, "n/a", p()), "⏳  fetching…");
}

fn pixel() -> DeviceInfo {
    DeviceInfo {
        model: "Pixel 7".into(),
        manufacturer: "Google".into(),
        brand: "google".into(),
        android_release: "14".into(),
        sdk: 34,
        fingerprint: "google/panther".into(),
        abi: "arm64-v8a".into(),
        serial: "ABC123".into(),
    }
}

#[test]
fn overview_identity_rows() {
    let d = pixel();
    assert_eq!(model_row(&d), "Pixel 7  (Google / google)");
    assert_eq!(android_row(&d), "14 (API 34)");
}

#[test]
fn overview_cpu_row_falls_back_to_question_marks() {
    let d = pixel();
    let c = CpuInfo { core_count: 8, hardware: "Tensor G2".into() };
    assert_eq!(cpu_row(Some(&d), &c), "arm64-v8a  ·  8 cores  ·  Tensor G2");
    let blank = CpuInfo { core_count: 4, hardware: String::new() };
    assert_eq!(cpu_row(None, &blank), "?  ·  4 cores  ·  ?");
    let no_abi = DeviceInfo { abi: String::new(), ..pixel() };
    assert_eq!(cpu_row(Some(&no_abi), &c), "?  ·  8 cores  ·  Tensor G2");
}

#[test]
fn overview_screen_row() {
    let s = ScreenInfo { width: 1080, height: 2400, density_dpi: 420 };
    assert_eq!(screen_row(&s), "1080x2400 @ 420 dpi");
}
