//! The registry and the read-only boundary.

use droidprobe::command::catalog::{BatteryCmd, DeviceInfoCmd, ListPackagesCmd};
use droidprobe::command::{Category, CommandError, CommandMeta, Describe};
use droidprobe::engine::{EngineConfig, Registry};

/// A command that changes device state.
struct Reboot;

impl Describe for Reboot {
    fn meta(&self) -> CommandMeta {
        CommandMeta {
            id: "device.reboot",
            description: "Reboot the device",
            category: Category::Device,
            mutating: true,
        }
    }
}

enum Cmd {
    Battery(BatteryCmd),
    Device(DeviceInfoCmd),
    Packages(ListPackagesCmd),
    Reboot(Reboot),
    Renamed(&'static str),
}

impl Describe for Cmd {
    fn meta(&self) -> CommandMeta {
        match self {
            Cmd::Battery(c) => c.meta(),
            Cmd::Device(c) => c.meta(),
            Cmd::Packages(c) => c.meta(),
            Cmd::Reboot(c) => c.meta(),
            Cmd::Renamed(d) => CommandMeta { description: d, ..BatteryCmd.meta() },
        }
    }
}

fn registry() -> Registry<Cmd> {
    let mut r = Registry::new();
    r.register(Cmd::Packages(ListPackagesCmd));
    r.register(Cmd::Battery(BatteryCmd));
    r.register(Cmd::Reboot(Reboot));
    r.register(Cmd::Device(DeviceInfoCmd));
    r
}

#[test]
fn registry_lists_commands_sorted_by_id() {
    let r = registry();
    let ids: Vec<&str> = r.list().iter().map(|m| m.id).collect();
    assert_eq!(ids, vec!["battery.status", "device.info", "device.reboot", "package.list"]);
    assert_eq!(r.len(), 4);
    assert!(!r.is_empty());
    assert!(Registry::<Cmd>::new().is_empty());
}

#[test]
fn registering_an_existing_id_replaces_it() {
    let mut r = registry();
    r.register(Cmd::Renamed("overridden"));
    assert_eq!(r.len(), 4);
    assert_eq!(r.get("battery.status").unwrap().meta().description, "overridden");
    assert!(r.contains("device.info"));
    assert!(!r.contains("device.cpu"));
    assert!(r.get("device.cpu").is_none());
}

#[test]
fn unknown_ids_and_mutating_commands_are_refused() {
    let r = registry();
    let cfg = EngineConfig::default();
    assert!(cfg.read_only);
    match r.resolve("nope", &cfg) {
        Err(CommandError::InvalidArgument(m)) => assert_eq!(m, "unknown command `nope`"),
        _ => panic!("expected an unknown-command error"),
    }
    match r.resolve("device.reboot", &cfg) {
        Err(CommandError::ReadOnlyViolation(id)) => assert_eq!(id, "device.reboot"),
        _ => panic!("expected a read-only violation"),
    }
    assert_eq!(r.resolve("device.info", &cfg).ok().unwrap().meta().id, "device.info");
    let open = EngineConfig { read_only: false, default_serial: None };
    assert_eq!(r.resolve("device.reboot", &open).ok().unwrap().meta().id, "device.reboot");
}

#[test]
fn call_serial_overrides_the_default() {
    let cfg = EngineConfig { read_only: true, default_serial: Some("emulator-5554".into()) };
    assert_eq!(cfg.effective_serial(Some("abc")), Some("abc".to_string()));
    assert_eq!(cfg.effective_serial(None), Some("emulator-5554".to_string()));
    assert_eq!(EngineConfig::default().effective_serial(None), None);
}
