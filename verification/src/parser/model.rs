//! Structured output types produced by the parsers.
//!
//! These are the canonical representations of device state. Each type that a
//! contract speaks of has a view in which its strings are character sequences.

use vstd::prelude::*;

verus! {

/// High-level device identity, assembled from `getprop`.
#[derive(Debug, Clone, Default, PartialEq, Eq)]
pub struct DeviceInfo {
    pub model: String,
    pub manufacturer: String,
    pub brand: String,
    pub android_release: String,
    pub sdk: u32,
    pub fingerprint: String,
    pub abi: String,
    pub serial: String,
}

/// CPU summary from `/proc/cpuinfo`. Architecture is reported separately via
/// [`DeviceInfo::abi`].
#[derive(Debug, Clone, Default, PartialEq, Eq)]
pub struct CpuInfo {
    pub core_count: u32,
    pub hardware: String,
}

/// Screen geometry from `wm size` + `wm density`.
#[derive(Debug, Clone, Default, PartialEq, Eq)]
pub struct ScreenInfo {
    pub width: u32,
    pub height: u32,
    pub density_dpi: u32,
}

/// RAM totals from `/proc/meminfo`, in kilobytes as reported by the kernel.
#[derive(Debug, Clone, Default, PartialEq, Eq)]
pub struct MemoryInfo {
    pub total_kb: u64,
    pub available_kb: u64,
}

/// One mounted filesystem row from `df`, sizes in kilobytes.
#[derive(Debug, Clone, Default, PartialEq, Eq)]
pub struct StorageEntry {
    pub filesystem: String,
    pub size_kb: u64,
    pub used_kb: u64,
    pub available_kb: u64,
    pub use_percent: u8,
    pub mounted_on: String,
}

/// IMEI from `dumpsys iphonesubinfo`; empty when the dump is not readable.
#[derive(Debug, Clone, Default, PartialEq, Eq)]
pub struct ImeiInfo {
    pub imei: String,
}

/// Battery state from `dumpsys battery`.
///
/// The temperature is kept as dumpsys reports it, in tenths of a degree
/// Celsius; degrees are `temperature_deci_c / 10`.
#[derive(Debug, Clone, Default, PartialEq, Eq)]
pub struct BatteryInfo {
    pub level: u8,
    pub scale: u8,
    /// One of AC / USB / Wireless / None.
    pub power_source: String,
    pub status: BatteryStatus,
    pub health: String,
    /// Temperature in tenths of a degree Celsius.
    pub temperature_deci_c: i64,
    /// Voltage in millivolts.
    pub voltage_mv: u32,
}

#[derive(Debug, Clone, Copy, Default, PartialEq, Eq, Structural)]
pub enum BatteryStatus {
    #[default]
    Unknown,
    Charging,
    Discharging,
    NotCharging,
    Full,
}

/// A single installed package, as listed by `pm list packages`.
#[derive(Debug, Clone, Default, PartialEq, Eq)]
pub struct PackageRef {
    pub name: String,
    /// Whether `pm` flagged this as a system package.
    pub system: bool,
}

/// Detailed package info from `dumpsys package <name>`.
#[derive(Debug, Clone, Default, PartialEq, Eq)]
pub struct PackageDetail {
    pub name: String,
    pub version_name: String,
    pub version_code: u64,
    pub min_sdk: u32,
    pub target_sdk: u32,
    pub permissions: Vec<Permission>,
    pub activities: Vec<Component>,
    pub services: Vec<Component>,
    pub receivers: Vec<Component>,
    /// Content providers are invoked by authority URI, not intent, so they have
    /// no entry in the resolver tables this list is built from.
    pub providers: Vec<Component>,
    /// Name of the activity with both `MAIN` action and `LAUNCHER` category.
    pub launcher_activity: Option<String>,
    /// Full unparsed `dumpsys package` text.
    pub raw: String,
}

#[derive(Debug, Clone, Default, PartialEq, Eq)]
pub struct Permission {
    pub name: String,
    pub granted: bool,
    pub protection_level: ProtectionLevel,
}

#[derive(Debug, Clone, Copy, Default, PartialEq, Eq, Structural)]
pub enum ProtectionLevel {
    #[default]
    Normal,
    Dangerous,
    Signature,
    Unknown,
}

/// Content of a single file read from a debuggable app's private data
/// directory via `run-as <pkg> cat <path>`.
#[derive(Debug, Clone, Default, PartialEq, Eq)]
pub struct PackageFileContent {
    /// Path relative to the app's data directory.
    pub path: String,
    /// File content, capped at a character limit.
    pub content: String,
    /// True if `content` was cut short because the file exceeded the cap.
    pub truncated: bool,
    /// Size of the content actually read, in bytes (before any truncation).
    pub size_bytes: u64,
}

/// A declared component (activity/service/receiver/provider), as seen in
/// `dumpsys package`'s intent-resolver tables.
#[derive(Debug, Clone, Default, PartialEq, Eq)]
pub struct Component {
    pub name: String,
    /// Intent actions this component declares a filter for.
    pub intent_actions: Vec<String>,
    /// Permission required to invoke this component, if one was listed.
    pub permission: Option<String>,
}

/// One log line from `logcat`.
#[derive(Debug, Clone, Default, PartialEq, Eq)]
pub struct LogEntry {
    pub timestamp: String,
    pub pid: u32,
    pub tid: u32,
    pub priority: LogPriority,
    pub tag: String,
    pub message: String,
}

#[derive(Debug, Clone, Copy, Default, PartialEq, Eq, Structural)]
pub enum LogPriority {
    Verbose,
    Debug,
    #[default]
    Info,
    Warn,
    Error,
    Fatal,
}

/// The priority that logcat's single-letter code stands for.
pub open spec fn priority_of(c: char) -> LogPriority {
    if c == 'V' {
        LogPriority::Verbose
    } else if c == 'D' {
        LogPriority::Debug
    } else if c == 'W' {
        LogPriority::Warn
    } else if c == 'E' {
        LogPriority::Error
    } else if c == 'F' {
        LogPriority::Fatal
    } else {
        LogPriority::Info
    }
}

impl LogPriority {
    /// Map logcat's single-letter priority code (V/D/I/W/E/F) to the enum;
    /// any other character is `Info`.
    pub fn from_code(c: char) -> (r: Self)
        ensures
            r == priority_of(c),
    {
        match c {
            'V' => LogPriority::Verbose,
            'D' => LogPriority::Debug,
            'I' => LogPriority::Info,
            'W' => LogPriority::Warn,
            'E' => LogPriority::Error,
            'F' => LogPriority::Fatal,
            _ => LogPriority::Info,
        }
    }
}

// ---------------------------------------------------------------------------
// Views
// ---------------------------------------------------------------------------

pub struct PermissionView {
    pub name: Seq<char>,
    pub granted: bool,
    pub protection_level: ProtectionLevel,
}

impl View for Permission {
    type V = PermissionView;

    open spec fn view(&self) -> PermissionView {
        PermissionView {
            name: self.name@,
            granted: self.granted,
            protection_level: self.protection_level,
        }
    }
}

pub struct ComponentView {
    pub name: Seq<char>,
    pub intent_actions: Seq<Seq<char>>,
    pub permission: Option<Seq<char>>,
}

pub open spec fn string_views(v: Seq<String>) -> Seq<Seq<char>> {
    v.map_values(|s: String| s@)
}

pub open spec fn opt_view(o: Option<String>) -> Option<Seq<char>> {
    match o {
        Some(s) => Some(s@),
        None => None,
    }
}

impl View for Component {
    type V = ComponentView;

    open spec fn view(&self) -> ComponentView {
        ComponentView {
            name: self.name@,
            intent_actions: string_views(self.intent_actions@),
            permission: opt_view(self.permission),
        }
    }
}

pub struct LogEntryView {
    pub timestamp: Seq<char>,
    pub pid: u32,
    pub tid: u32,
    pub priority: LogPriority,
    pub tag: Seq<char>,
    pub message: Seq<char>,
}

impl View for LogEntry {
    type V = LogEntryView;

    open spec fn view(&self) -> LogEntryView {
        LogEntryView {
            timestamp: self.timestamp@,
            pid: self.pid,
            tid: self.tid,
            priority: self.priority,
            tag: self.tag@,
            message: self.message@,
        }
    }
}

pub struct StorageEntryView {
    pub filesystem: Seq<char>,
    pub size_kb: u64,
    pub used_kb: u64,
    pub available_kb: u64,
    pub use_percent: u8,
    pub mounted_on: Seq<char>,
}

impl View for StorageEntry {
    type V = StorageEntryView;

    open spec fn view(&self) -> StorageEntryView {
        StorageEntryView {
            filesystem: self.filesystem@,
            size_kb: self.size_kb,
            used_kb: self.used_kb,
            available_kb: self.available_kb,
            use_percent: self.use_percent,
            mounted_on: self.mounted_on@,
        }
    }
}

pub struct PackageRefView {
    pub name: Seq<char>,
    pub system: bool,
}

impl View for PackageRef {
    type V = PackageRefView;

    open spec fn view(&self) -> PackageRefView {
        PackageRefView { name: self.name@, system: self.system }
    }
}

} // verus!
