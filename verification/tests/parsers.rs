//! Parser tests on captured command output.

use droidprobe::parser::battery::BatteryParser;
use droidprobe::parser::cpuinfo::CpuInfoParser;
use droidprobe::parser::getprop::GetpropParser;
use droidprobe::parser::imei::ImeiInfoParser;
use droidprobe::parser::logcat::LogcatParser;
use droidprobe::parser::meminfo::MemInfoParser;
use droidprobe::parser::model::{BatteryStatus, LogPriority};
use droidprobe::parser::packages::PackageListParser;
use droidprobe::parser::screen::ScreenInfoParser;
use droidprobe::parser::storage::{parse_size_kb, StorageParser};
use droidprobe::parser::{Parse, ParseError};

fn chars(s: &str) -> Vec<char> {
    s.chars().collect()
}

#[test]
fn parses_getprop() {
    let raw = "\
[ro.product.model]: [Pixel 7]
[ro.product.manufacturer]: [Google]
[ro.product.brand]: [google]
[ro.build.version.release]: [14]
[ro.build.version.sdk]: [34]
[ro.product.cpu.abi]: [arm64-v8a]
[ro.build.fingerprint]: [google/panther/panther:14/UP1A]";
    let info = GetpropParser::parse(raw).unwrap();
    assert_eq!(info.model, "Pixel 7");
    assert_eq!(info.manufacturer, "Google");
    assert_eq!(info.sdk, 34);
    assert_eq!(info.abi, "arm64-v8a");
}

#[test]
fn getprop_falls_back_to_abilist() {
    // Treble-ized devices often leave ro.product.cpu.abi unset and only
    // populate the abilist (primary ABI first).
    let raw = "\
[ro.product.model]: [SM-P610]
[ro.product.cpu.abilist]: [arm64-v8a,armeabi-v7a,armeabi]";
    let info = GetpropParser::parse(raw).unwrap();
    assert_eq!(info.abi, "arm64-v8a");
}

#[test]
fn parses_battery() {
    let raw = "\
Current Battery Service state:
  AC powered: false
  USB powered: true
  Wireless powered: false
  status: 2
  health: 2
  level: 87
  scale: 100
  voltage: 4123
  temperature: 312";
    let b = BatteryParser::parse(raw).unwrap();
    assert_eq!(b.level, 87);
    assert_eq!(b.power_source, "USB");
    assert_eq!(b.status, BatteryStatus::Charging);
    assert!((b.temperature_deci_c as f64 / 10.0 - 31.2).abs() < 0.001);
    assert_eq!(b.voltage_mv, 4123);
}

#[test]
fn parses_packages() {
    let raw = "package:com.android.settings\npackage:com.example.app\n";
    let pkgs = PackageListParser::parse_with_system(raw, false).unwrap();
    assert_eq!(pkgs.len(), 2);
    assert_eq!(pkgs[0].name, "com.android.settings");
}

#[test]
fn parses_logcat_line() {
    let line = "06-18 14:23:01.123  1234  1250 E ActivityManager: ANR in com.example";
    let entry = LogcatParser::parse_line(line).unwrap();
    assert_eq!(entry.pid, 1234);
    assert_eq!(entry.tid, 1250);
    assert_eq!(entry.priority, LogPriority::Error);
    assert_eq!(entry.tag, "ActivityManager");
    assert!(entry.message.contains("ANR"));
}

#[test]
fn skips_non_log_lines() {
    let raw = "--------- beginning of main\n06-18 14:23:01.123  1  2 I Tag: hi";
    let entries = LogcatParser::parse(raw).unwrap();
    assert_eq!(entries.len(), 1);
}

#[test]
fn parses_cpuinfo() {
    let raw = "\
processor       : 0
BogoMIPS        : 38.40
processor       : 1
BogoMIPS        : 38.40
processor       : 2
BogoMIPS        : 38.40
processor       : 3
BogoMIPS        : 38.40
Hardware        : Qualcomm Technologies, Inc SDM660
Revision        : 0000";
    let cpu = CpuInfoParser::parse(raw).unwrap();
    assert_eq!(cpu.core_count, 4);
    assert_eq!(cpu.hardware, "Qualcomm Technologies, Inc SDM660");
}

#[test]
fn parses_screen() {
    let size = "Physical size: 1080x2340";
    let density = "Physical density: 420";
    let screen = ScreenInfoParser::parse_combined(size, density).unwrap();
    assert_eq!(screen.width, 1080);
    assert_eq!(screen.height, 2340);
    assert_eq!(screen.density_dpi, 420);
}

#[test]
fn parses_meminfo() {
    let raw = "\
MemTotal:        3756128 kB
MemFree:          123456 kB
MemAvailable:    1234567 kB
Buffers:            4567 kB";
    let mem = MemInfoParser::parse(raw).unwrap();
    assert_eq!(mem.total_kb, 3756128);
    assert_eq!(mem.available_kb, 1234567);
}

#[test]
fn parses_storage() {
    let raw = "\
Filesystem      1K-blocks    Used Available Use% Mounted on
/dev               123456   12345    111111   2% /dev
/data            58312000 1234560  45000000   3% /data";
    let entries = StorageParser::parse(raw).unwrap();
    assert_eq!(entries.len(), 2);
    let data = entries.iter().find(|e| e.mounted_on == "/data").unwrap();
    assert_eq!(data.size_kb, 58312000);
    assert_eq!(data.used_kb, 1234560);
    assert_eq!(data.available_kb, 45000000);
    assert_eq!(data.use_percent, 3);
}

#[test]
fn parses_storage_human_readable() {
    // Toybox's `df` on most real Android builds reports sizes like this by
    // default, not raw 1K-blocks.
    let raw = "\
Filesystem      Size  Used Avail Use% Mounted on
/dev             1.9G   84K  1.9G   1% /dev
/data             55G   12G   43G  22% /data";
    let entries = StorageParser::parse(raw).unwrap();
    let data = entries.iter().find(|e| e.mounted_on == "/data").unwrap();
    assert_eq!(data.size_kb, 55 * 1024 * 1024);
    assert_eq!(data.used_kb, 12 * 1024 * 1024);
    assert_eq!(data.available_kb, 43 * 1024 * 1024);
    assert_eq!(data.use_percent, 22);

    let dev = entries.iter().find(|e| e.mounted_on == "/dev").unwrap();
    assert_eq!(dev.used_kb, 84);
}

#[test]
fn parses_imei() {
    let raw = "\
Phone Subscriber Info:
  Phone Type = GSM
  Device ID = 359268000000000";
    let imei = ImeiInfoParser::parse(raw).unwrap();
    assert_eq!(imei.imei, "359268000000000");
}

#[test]
fn imei_unavailable_without_permission() {
    let raw = "Permission Denial: can't dump iphonesubinfo";
    let imei = ImeiInfoParser::parse(raw).unwrap();
    assert_eq!(imei.imei, "");
}

#[test]
fn storage_size_units_scale_and_round_down() {
    assert_eq!(parse_size_kb(&chars("1.9G")), 1992294);
    assert_eq!(parse_size_kb(&chars("84K")), 84);
    assert_eq!(parse_size_kb(&chars("2m")), 2048);
    assert_eq!(parse_size_kb(&chars("1.5T")), 1610612736);
    assert_eq!(parse_size_kb(&chars(".5M")), 512);
    assert_eq!(parse_size_kb(&chars("+3K")), 3);
    assert_eq!(parse_size_kb(&chars("123456")), 123456);
}

#[test]
fn storage_size_reads_exponents_and_infinity() {
    assert_eq!(parse_size_kb(&chars("1e3K")), 1000);
    assert_eq!(parse_size_kb(&chars("1.5e1M")), 15360);
    assert_eq!(parse_size_kb(&chars("2E-1M")), 204);
    assert_eq!(parse_size_kb(&chars("1.e2K")), 100);
    assert_eq!(parse_size_kb(&chars(".5e1K")), 5);
    assert_eq!(parse_size_kb(&chars("1e+2K")), 100);
    assert_eq!(parse_size_kb(&chars("5e-1K")), 0);
    assert_eq!(parse_size_kb(&chars("1e400K")), u64::MAX);
    assert_eq!(parse_size_kb(&chars("1e-400K")), 0);
    assert_eq!(parse_size_kb(&chars("0e99999999999999999999999999999999K")), 0);
    assert_eq!(parse_size_kb(&chars("3e99999999999999999999999999999999K")), u64::MAX);
    assert_eq!(parse_size_kb(&chars("3e-99999999999999999999999999999999K")), 0);
    assert_eq!(parse_size_kb(&chars("infK")), u64::MAX);
    assert_eq!(parse_size_kb(&chars("+INFINITYg")), u64::MAX);
    assert_eq!(parse_size_kb(&chars("-infK")), 0);
    assert_eq!(parse_size_kb(&chars("nanK")), 0);
    assert_eq!(parse_size_kb(&chars("1eK")), 0);
    assert_eq!(parse_size_kb(&chars("e5K")), 0);
}

#[test]
fn storage_size_rejects_what_is_not_a_size() {
    assert_eq!(parse_size_kb(&chars("-1.5G")), 0);
    assert_eq!(parse_size_kb(&chars("12X")), 0);
    assert_eq!(parse_size_kb(&chars("K")), 0);
    assert_eq!(parse_size_kb(&chars("1.2.3G")), 0);
    assert_eq!(parse_size_kb(&chars("")), 0);
    assert_eq!(parse_size_kb(&chars("99999999999999999999")), 0);
    assert_eq!(parse_size_kb(&chars("99999999999999999999T")), u64::MAX);
}

#[test]
fn storage_skips_short_lines_and_joins_mount_points() {
    let raw = "\
Filesystem Size Used Avail Use% Mounted on
banner line
/dev/fuse 10G 1G 9G 10% /storage/emulated with space";
    let entries = StorageParser::parse(raw).unwrap();
    assert_eq!(entries.len(), 1);
    assert_eq!(entries[0].filesystem, "/dev/fuse");
    assert_eq!(entries[0].mounted_on, "/storage/emulated with space");
    assert_eq!(entries[0].use_percent, 10);
    assert_eq!(StorageParser::parse("").unwrap().len(), 0);
}

#[test]
fn meminfo_without_total_is_an_error() {
    let err = MemInfoParser::parse("MemFree: 12 kB").unwrap_err();
    assert_eq!(err, ParseError::UnexpectedFormat("no MemTotal line found".to_string()));
}

#[test]
fn getprop_empty_input_is_an_error() {
    assert_eq!(GetpropParser::parse("   \n").unwrap_err(), ParseError::Empty);
}

#[test]
fn packages_without_package_lines_is_an_error() {
    let err = PackageListParser::parse("garbage").unwrap_err();
    assert!(matches!(err, ParseError::UnexpectedFormat(_)));
    assert_eq!(PackageListParser::parse("").unwrap().len(), 0);
}

#[test]
fn logcat_digits_are_unicode_decimal_digits() {
    let line = "٠٦-١٨ ١٤:٢٣:٠١.١٢٣  ١٢٣٤  ١٢٥٠ W Tag: wide digits";
    let entry = LogcatParser::parse_line(line).unwrap();
    assert_eq!(entry.timestamp, "٠٦-١٨ ١٤:٢٣:٠١.١٢٣");
    assert_eq!(entry.pid, 0);
    assert_eq!(entry.tid, 0);
    assert_eq!(entry.priority, LogPriority::Warn);
    assert_eq!(entry.message, "wide digits");
    assert!(LogcatParser::parse_line("06-18 14:23:01.123 1 2 X Tag: bad priority").is_none());
    assert!(LogcatParser::parse_line("06-18 14:23:01.123 99999999999 2 I Tag:x").unwrap().pid == 0);
}
