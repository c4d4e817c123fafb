//! Commands driven end to end through the in-memory transport: the shell line
//! a command sends is answered by the mock, and the answer is decoded.

use droidprobe::command::catalog::{
    BatteryCmd, CpuAction, CpuInfoCmd, DeviceInfoCmd, ListPackagesCmd, LogcatArgs,
    LogcatSnapshotCmd, PackageArg, PackageDataListCmd, PackageDataReadCmd, PackageDetailCmd,
    PackageFileArg, ScreenInfoCmd, MAX_PACKAGE_FILE_BYTES,
};
use droidprobe::command::catalog::builtin_metas;
use droidprobe::command::validate::{
    check_run_as_output, validate_package_name, validate_relative_path,
};
use droidprobe::command::{Category, CommandError, Describe, MockTransport, TypedDyn};
use droidprobe::parser::ParseError;

#[test]
fn battery_command_end_to_end() {
    let t = MockTransport::default().with(
        "dumpsys battery",
        "  status: 2\n  level: 90\n  scale: 100\n  voltage: 4000\n  temperature: 250\n  USB powered: true",
    );
    let raw = t.shell(None, BatteryCmd.shell_line()).expect("command should succeed");
    let out = BatteryCmd.decode(&raw).expect("command should succeed");
    assert_eq!(out.level, 90);
    assert_eq!(out.power_source, "USB");
}

#[test]
fn package_data_list_strips_dot_slash_prefix() {
    let t = MockTransport::default()
        .with("run-as com.scorp.who find", "./shared_prefs/app.xml\n./databases/app.db\n");
    let args = PackageArg { package: "com.scorp.who".into() };
    let line = PackageDataListCmd.shell_line(&args).expect("command should succeed");
    let raw = t.shell(None, &line).expect("command should succeed");
    let out = PackageDataListCmd.decode(&args, &raw).expect("command should succeed");
    assert_eq!(out, vec!["shared_prefs/app.xml", "databases/app.db"]);
}

#[test]
fn package_data_list_surfaces_run_as_failure() {
    let t = MockTransport::default()
        .with("run-as com.example.app find", "run-as: package not debuggable: com.example.app\n");
    let args = PackageArg { package: "com.example.app".into() };
    let line = PackageDataListCmd.shell_line(&args).unwrap();
    let raw = t.shell(None, &line).unwrap();
    let err = PackageDataListCmd
        .decode(&args, &raw)
        .expect_err("non-debuggable package should be rejected");
    assert!(err.message().contains("debuggable"));
}

#[test]
fn package_data_list_rejects_malformed_package_name() {
    let args = PackageArg { package: "com.evil; rm -rf /".into() };
    let err = PackageDataListCmd
        .shell_line(&args)
        .expect_err("shell metacharacters in package name must be rejected");
    assert!(matches!(err, CommandError::InvalidArgument(_)));
}

#[test]
fn package_data_read_rejects_path_traversal() {
    let args = PackageFileArg { package: "com.scorp.who".into(), path: "../../etc/hosts".into() };
    let err = PackageDataReadCmd.shell_line(&args).expect_err("`..` segments must be rejected");
    assert!(matches!(err, CommandError::InvalidArgument(_)));
}

#[test]
fn package_data_read_truncates_oversized_content() {
    let big = "a".repeat(MAX_PACKAGE_FILE_BYTES + 100);
    let t = MockTransport::default().with("run-as com.scorp.who cat", &big);
    let args = PackageFileArg { package: "com.scorp.who".into(), path: "files/big.txt".into() };
    let line = PackageDataReadCmd.shell_line(&args).expect("command should succeed");
    let raw = t.shell(None, &line).expect("command should succeed");
    let out = PackageDataReadCmd.decode(args, raw).expect("command should succeed");
    assert!(out.truncated);
    assert_eq!(out.content.len(), MAX_PACKAGE_FILE_BYTES);
    assert_eq!(out.size_bytes, (MAX_PACKAGE_FILE_BYTES + 100) as u64);
}

#[test]
fn package_data_read_caps_multibyte_content_by_bytes() {
    let big = "é".repeat(MAX_PACKAGE_FILE_BYTES / 2 + 1);
    let args = PackageFileArg { package: "com.scorp.who".into(), path: "files/big.txt".into() };
    let out = PackageDataReadCmd.decode(args, big.clone()).expect("command should succeed");
    assert!(out.truncated);
    assert_eq!(out.content.len(), MAX_PACKAGE_FILE_BYTES);
    assert_eq!(out.content.chars().count(), MAX_PACKAGE_FILE_BYTES / 2);
    assert!(big.starts_with(&out.content));
    assert_eq!(out.size_bytes, (MAX_PACKAGE_FILE_BYTES + 2) as u64);
}

#[test]
fn package_data_read_cuts_between_characters() {
    let mut raw = "a".repeat(MAX_PACKAGE_FILE_BYTES - 1);
    raw.push('é');
    raw.push_str("tail");
    let args = PackageFileArg { package: "com.scorp.who".into(), path: "files/x".into() };
    let out = PackageDataReadCmd.decode(args, raw).expect("command should succeed");
    assert!(out.truncated);
    assert_eq!(out.content, "a".repeat(MAX_PACKAGE_FILE_BYTES - 1));
}

#[test]
fn dyn_command_roundtrips_json() {
    let t = MockTransport::default().with("pm list packages", "package:com.a\npackage:com.b");
    let cmd = TypedDyn(ListPackagesCmd);
    let raw = t.shell(None, cmd.0.shell_line()).unwrap();
    let out = cmd.0.decode(&raw).unwrap();
    assert_eq!(out.len(), 2);
    assert_eq!(cmd.meta().id, "package.list");
}

#[test]
fn mock_first_matching_needle_wins_and_misses_are_transport_errors() {
    let t = MockTransport::default().with("getprop", "first").with("getprop ro", "second");
    assert_eq!(t.shell(None, "getprop ro.hardware").unwrap(), "first");
    let err = t.shell(Some("emulator-5554"), "wm size").unwrap_err();
    match err {
        CommandError::Transport(m) => assert_eq!(m, "no mock for `wm size`"),
        other => panic!("unexpected error {other:?}"),
    }
    let mut d = MockTransport::default();
    d.devices.push("emulator-5554".to_string());
    assert_eq!(d.list_devices().unwrap(), vec!["emulator-5554".to_string()]);
}

#[test]
fn command_shell_lines_and_metadata() {
    assert_eq!(DeviceInfoCmd.shell_line(), "getprop");
    assert_eq!(PackageDetailCmd.shell_line("com.a.b"), "dumpsys package com.a.b");
    assert_eq!(ScreenInfoCmd.shell_lines(), ("wm size", "wm density"));
    assert_eq!(LogcatSnapshotCmd.shell_line(), "logcat -d -v threadtime");
    let m = BatteryCmd.meta();
    assert_eq!(m.id, "battery.status");
    assert_eq!(m.category, Category::Battery);
    assert!(!m.mutating);
    let args = PackageFileArg { package: "com.a.b".into(), path: "files/x.txt".into() };
    assert_eq!(PackageDataReadCmd.shell_line(&args).unwrap(), "run-as com.a.b cat ./files/x.txt");
    let pa = PackageArg { package: "com.a.b".into() };
    assert_eq!(PackageDataListCmd.shell_line(&pa).unwrap(), "run-as com.a.b find . -type f");
}

#[test]
fn package_name_validation() {
    assert!(validate_package_name("com.example.app").is_ok());
    assert!(validate_package_name("com.example_2.App9").is_ok());
    for bad in ["", "example", ".com.a", "com..a", "com.a.", "9com.a", "com.a-b", "com.a b", "_com.a"] {
        let err = validate_package_name(bad).unwrap_err();
        match err {
            CommandError::InvalidArgument(m) => {
                assert_eq!(m, format!("`{bad}` is not a valid Android package name"))
            }
            other => panic!("unexpected error {other:?}"),
        }
    }
}

#[test]
fn relative_path_validation() {
    assert!(validate_relative_path("files/a.txt").is_ok());
    assert!(validate_relative_path("shared_prefs/app-1.xml").is_ok());
    assert!(validate_relative_path("a/..b/c").is_ok());
    for bad in ["", "/etc/hosts", "a//b", "a/", "../x", "a/../b", "a/..", "a b", "a;b", "a$b"] {
        let err = validate_relative_path(bad).unwrap_err();
        match err {
            CommandError::InvalidArgument(m) => {
                assert_eq!(m, format!("`{bad}` is not a safe relative path"))
            }
            other => panic!("unexpected error {other:?}"),
        }
    }
}

#[test]
fn run_as_failure_message_quotes_the_error() {
    assert!(check_run_as_output("com.a.b", "./files/x\n").is_ok());
    let err = check_run_as_output("com.a.b", "  run-as: unknown package: com.a.b\n").unwrap_err();
    assert_eq!(
        err.message(),
        "invalid argument: cannot access `com.a.b`'s data dir: run-as: unknown package: com.a.b \
         (the package must be debuggable, or the device rooted)"
    );
}

#[test]
fn small_files_are_returned_whole() {
    let args = PackageFileArg { package: "com.a.b".into(), path: "f.txt".into() };
    let out = PackageDataReadCmd.decode(args, "héllo".to_string()).unwrap();
    assert!(!out.truncated);
    assert_eq!(out.content, "héllo");
    assert_eq!(out.size_bytes, 6);
    assert_eq!(out.path, "f.txt");
}

#[test]
fn cpu_falls_back_to_the_first_non_blank_prop() {
    let (run, action) = CpuInfoCmd.after_cpuinfo("processor : 0\nprocessor : 1\n");
    assert_eq!(run.info.core_count, 2);
    let line = match action {
        CpuAction::Shell(l) => l,
        CpuAction::Done(_) => panic!("expected a fallback prop"),
    };
    assert_eq!(line, "getprop ro.hardware");
    let (run, action) = CpuInfoCmd.after_prop(run, "  \n");
    match action {
        CpuAction::Shell(l) => assert_eq!(l, "getprop ro.board.platform"),
        CpuAction::Done(_) => panic!("expected the next prop"),
    }
    let (_, action) = CpuInfoCmd.after_prop(run, " kona \n");
    match action {
        CpuAction::Done(info) => {
            assert_eq!(info.hardware, "kona");
            assert_eq!(info.core_count, 2);
        }
        CpuAction::Shell(_) => panic!("expected to be done"),
    }
}

#[test]
fn cpu_with_hardware_line_needs_no_fallback() {
    let (_, action) = CpuInfoCmd.after_cpuinfo("processor : 0\nHardware : Tensor\n");
    match action {
        CpuAction::Done(info) => assert_eq!(info.hardware, "Tensor"),
        CpuAction::Shell(_) => panic!("expected to be done"),
    }
}

#[test]
fn cpu_gives_up_after_the_last_prop() {
    let (mut run, _) = CpuInfoCmd.after_cpuinfo("processor : 0\n");
    for expected in ["getprop ro.board.platform", "getprop ro.product.board"] {
        let (next, action) = CpuInfoCmd.after_prop(run, "");
        match action {
            CpuAction::Shell(l) => assert_eq!(l, expected),
            CpuAction::Done(_) => panic!("expected another prop"),
        }
        run = next;
    }
    let (_, action) = CpuInfoCmd.after_prop(run, "");
    match action {
        CpuAction::Done(info) => assert_eq!(info.hardware, ""),
        CpuAction::Shell(_) => panic!("expected to be done"),
    }
}

#[test]
fn logcat_limit_keeps_the_most_recent_entries() {
    let raw = "06-18 14:23:01.123  1  2 I A: one\n06-18 14:23:02.123  1  2 I B: two\n06-18 14:23:03.123  1  2 I C: three";
    let all = LogcatSnapshotCmd.decode(&LogcatArgs::default(), raw).unwrap();
    assert_eq!(all.len(), 3);
    let last = LogcatSnapshotCmd.decode(&LogcatArgs { limit: Some(2) }, raw).unwrap();
    assert_eq!(last.len(), 2);
    assert_eq!(last[0].tag, "B");
    assert_eq!(last[1].tag, "C");
    let more = LogcatSnapshotCmd.decode(&LogcatArgs { limit: Some(10) }, raw).unwrap();
    assert_eq!(more.len(), 3);
}

#[test]
fn decode_failures_become_parse_errors() {
    let err = DeviceInfoCmd.decode("").unwrap_err();
    assert!(matches!(err, CommandError::Parse(ParseError::Empty)));
    assert_eq!(err.message(), "parse error: empty input");
    let err = CommandError::ReadOnlyViolation("x.y".into());
    assert_eq!(err.message(), "command `x.y` is mutating and read-only mode is enabled");
    let e: CommandError = ParseError::MissingField("level").into();
    assert_eq!(e.message(), "parse error: missing expected field: level");
    let e = ParseError::InvalidValue { field: "sdk", value: "a\"b".into() };
    assert_eq!(e.message(), "failed to parse value for `sdk`: \"a\\\"b\"");
}

#[test]
fn serialization_errors_keep_their_prefix() {
    let e = serde_json::from_str::<u8>("x").unwrap_err();
    let text = e.to_string();
    let err: CommandError = e.into();
    assert_eq!(err.message(), format!("serialization error: {text}"));
}

#[test]
fn builtin_metas_are_distinct_and_read_only() {
    let metas = builtin_metas();
    let ids: Vec<&str> = metas.iter().map(|m| m.id).collect();
    assert_eq!(
        ids,
        vec![
            "device.info",
            "battery.status",
            "package.list",
            "package.detail",
            "package.data.list",
            "package.data.read",
            "device.cpu",
            "device.screen",
            "device.memory",
            "device.storage",
            "device.imei",
            "log.snapshot",
        ]
    );
    assert!(metas.iter().all(|m| !m.mutating));
    assert_eq!(metas[1].description, BatteryCmd.meta().description);
}
