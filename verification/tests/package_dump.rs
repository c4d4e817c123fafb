//! Package dump parser tests against captured fixture output.

use droidprobe::parser::model::ProtectionLevel;
use droidprobe::parser::package_dump::PackageDumpParser;
use droidprobe::parser::Parse;

#[test]
fn parses_package_dump() {
    let raw = "\
  Package [com.example.app] (3a2b1c4):
    userId=10123
    versionCode=318 minSdk=24 targetSdk=34
    versionName=3.2.1
    requested permissions:
      android.permission.CAMERA
      android.permission.READ_CONTACTS
      android.permission.INTERNET
    install permissions:
      android.permission.INTERNET: granted=true
    User 0: ceDataInode=1234 installed=true hidden=false
      runtime permissions:
        android.permission.CAMERA: granted=true
        android.permission.READ_CONTACTS: granted=false";
    let detail = PackageDumpParser::parse(raw).unwrap();
    assert_eq!(detail.name, "com.example.app");
    assert_eq!(detail.version_name, "3.2.1");
    assert_eq!(detail.version_code, 318);
    assert_eq!(detail.min_sdk, 24);
    assert_eq!(detail.target_sdk, 34);
    assert_eq!(detail.permissions.len(), 3);

    let camera = detail
        .permissions
        .iter()
        .find(|p| p.name == "android.permission.CAMERA")
        .unwrap();
    assert!(camera.granted);
    assert_eq!(camera.protection_level, ProtectionLevel::Dangerous);

    let contacts = detail
        .permissions
        .iter()
        .find(|p| p.name == "android.permission.READ_CONTACTS")
        .unwrap();
    assert!(!contacts.granted);
    assert_eq!(contacts.protection_level, ProtectionLevel::Dangerous);

    let internet = detail
        .permissions
        .iter()
        .find(|p| p.name == "android.permission.INTERNET")
        .unwrap();
    assert!(internet.granted);
    assert_eq!(internet.protection_level, ProtectionLevel::Normal);
}

/// Captured from a real `adb shell dumpsys package com.spotify.music` on a
/// Samsung Android 14 device. Confirms this build never prints an
/// `exported=` field anywhere — that's why [`droidprobe::parser::model::Component`]
/// doesn't have one.
const SPOTIFY_DUMP: &str = "\
  Activity Resolver Table:
  Non-Data Actions:
      android.intent.action.MAIN:
        32e7ca4 com.spotify.music/com.google.android.archive.ReactivateActivity filter f9d3a0d
          Action: \"android.intent.action.MAIN\"
          Category: \"android.intent.category.LAUNCHER\"

Receiver Resolver Table:
  Non-Data Actions:
      android.intent.action.MY_PACKAGE_REPLACED:
        afddc2 com.spotify.music/com.google.android.archive.UpdateBroadcastReceiver filter 67eb7d3
          Action: \"android.intent.action.MY_PACKAGE_REPLACED\"

Domain verification status:

Permissions:
  Permission [com.spotify.music.permission.SECURED_BROADCAST] (fe54118):
    sourcePackage=com.spotify.music
    uid=10290 gids=[] type=0 prot=signature
    perm=PermissionInfo{e073641 com.spotify.music.permission.SECURED_BROADCAST}

Key Set Manager:
  [com.spotify.music]
      Signing KeySets: 52

Packages:
  Package [com.spotify.music] (1dd8540):
    userId=10290
    versionCode=110104295 minSdk=21 targetSdk=34
    versionName=8.9.8.545
    declared permissions:
      com.spotify.music.permission.SECURED_BROADCAST: prot=signature, INSTALLED
    User 0: ceDataInode=13574 installed=true hidden=false
      firstInstallTime=2023-07-25 18:54:43
      runtime permissions:

Queries:
  system apps queryable: false";

#[test]
fn parses_real_spotify_dump_components() {
    let detail = PackageDumpParser::parse(SPOTIFY_DUMP).unwrap();
    assert_eq!(detail.name, "com.spotify.music");
    assert_eq!(detail.version_name, "8.9.8.545");
    assert_eq!(detail.version_code, 110104295);
    assert_eq!(
        detail.launcher_activity.as_deref(),
        Some("com.google.android.archive.ReactivateActivity")
    );

    assert_eq!(detail.activities.len(), 1);
    assert_eq!(detail.receivers.len(), 1);
    assert!(detail.services.is_empty());
    // Providers never show up in resolver tables (no intent-filter), so this
    // stays empty even though the real app surely has one — a known gap.
    assert!(detail.providers.is_empty());

    let receiver = &detail.receivers[0];
    assert_eq!(
        receiver.name,
        "com.google.android.archive.UpdateBroadcastReceiver"
    );
    assert_eq!(
        receiver.intent_actions,
        vec!["android.intent.action.MY_PACKAGE_REPLACED"]
    );
    assert_eq!(receiver.permission, None);
}

/// Excerpt from a real `dumpsys package com.google.android.videos` dump,
/// including a permission-gated service and a stray U+FFFD byte right after
/// a `pkg/` slash (an artifact seen in the wild from this device/transport)
/// that splits the component name into its own whitespace-separated token.
const VIDEOS_DUMP_EXCERPT: &str = "\
Activity Resolver Table:
  Non-Data Actions:
      android.intent.action.MAIN:
        f560acc com.google.android.videos/.GoogleTvEntryPoint filter 4b4f115
          Action: \"android.intent.action.MAIN\"
          Category: \"android.intent.category.DEFAULT\"
          Category: \"android.intent.category.LAUNCHER\"
      com.google.android.apps.googletv.ACTION_ENTITY_PAGE:
        2d2682 com.google.android.videos/\u{FFFD}  com.google.android.apps.googletv.app.presentation.pages.entity.EntityPageActivity filter f813193
          Action: \"com.google.android.apps.googletv.ACTION_ENTITY_PAGE\"
          Category: \"android.intent.category.DEFAULT\"

Service Resolver Table:
  Non-Data Actions:
      android.service.quicksettings.action.QS_TILE:
        9ce59db com.google.android.videos/com.google.android.apps.googletv.app.device.virtualremote.ui.QuickSettingTileService filter 69f2c78 permission android.permission.BIND_QUICK_SETTINGS_TILE
          Action: \"android.service.quicksettings.action.QS_TILE\"

Permissions:";

#[test]
fn parses_videos_dump_with_corrupted_byte_and_permission() {
    let detail = PackageDumpParser::parse(VIDEOS_DUMP_EXCERPT).unwrap();
    assert_eq!(
        detail.launcher_activity.as_deref(),
        Some(".GoogleTvEntryPoint")
    );
    assert_eq!(detail.activities.len(), 2);
    let entity_page = detail
        .activities
        .iter()
        .find(|c| c.name.ends_with("EntityPageActivity"))
        .expect("corrupted-byte component name should still parse");
    assert_eq!(
        entity_page.name,
        "com.google.android.apps.googletv.app.presentation.pages.entity.EntityPageActivity"
    );

    assert_eq!(detail.services.len(), 1);
    let tile_service = &detail.services[0];
    assert_eq!(
        tile_service.permission.as_deref(),
        Some("android.permission.BIND_QUICK_SETTINGS_TILE")
    );
}
