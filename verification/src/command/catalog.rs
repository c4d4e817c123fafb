//! Built-in command catalog.
//!
//! Each command is a small zero-sized type. For each one this module gives
//! its metadata, the shell line(s) it sends, and how the device's answer is
//! decoded. Sending the line is the caller's part: it hands the device output
//! back to the command's decoding function.

use vstd::prelude::*;

use crate::command::error::{CommandError, CommandResult};
use crate::command::meta::{meta_is, Category, CommandMeta, Describe};
use crate::command::validate::{
    check_run_as_output, run_as_error, run_as_failed, valid_package_name, valid_relative_path,
    validate_package_name, validate_relative_path,
};
use crate::parser::battery::{is_battery_of, BatteryParser};
use crate::parser::cpuinfo::{cpu_fold, CpuInfoParser};
use crate::parser::getprop::{is_device_of, GetpropParser};
use crate::parser::imei::{imei_of, ImeiInfoParser};
use crate::parser::logcat::{entry_views, log_entries, LogcatParser};
use crate::parser::meminfo::{mem_fold, MemInfoParser};
use crate::parser::model::{
    BatteryInfo, CpuInfo, DeviceInfo, ImeiInfo, LogEntry, MemoryInfo, PackageDetail,
    PackageFileContent, PackageRef, ScreenInfo, StorageEntry,
};
use crate::parser::package_dump::{is_detail_of, PackageDumpParser};
use crate::parser::packages::{listed_names, lists, PackageListParser};
use crate::parser::screen::{density_of, dims_of, ScreenInfoParser};
use crate::parser::storage::{after_header, rows_of, StorageParser};
use crate::parser::{Parse, ParseError, ParseResult};
use crate::text::{
    byte_len, char_width, chars_of, copy_range, lemma_byte_len_push, lines, lines_of, push_str,
    starts_with, string_of, trim, trim_vec, views,
};

verus! {

/// A parse failure, as a command error.
fn parsed<T>(r: ParseResult<T>) -> (out: CommandResult<T>)
    ensures
        match r {
            Ok(v) => out == Ok::<T, CommandError>(v),
            Err(e) => out == Err::<T, CommandError>(CommandError::Parse(e)),
        },
{
    match r {
        Ok(v) => Ok(v),
        Err(e) => Err(CommandError::Parse(e)),
    }
}

/// Device identity via `getprop`.
pub struct DeviceInfoCmd;

impl Describe for DeviceInfoCmd {
    fn meta(&self) -> (m: CommandMeta)
        ensures
            meta_is(
                m,
                "device.info"@,
                "Device model, manufacturer, Android version and ABI"@,
                Category::Device,
                false,
            ),
    {
        CommandMeta {
            id: "device.info",
            description: "Device model, manufacturer, Android version and ABI",
            category: Category::Device,
            mutating: false,
        }
    }
}

impl DeviceInfoCmd {
    pub fn shell_line(&self) -> (r: &'static str)
        ensures
            r@ == "getprop"@,
    {
        "getprop"
    }

    /// Decodes `getprop` output: blank output is an empty-input parse error.
    pub fn decode(&self, raw: &str) -> (r: CommandResult<DeviceInfo>)
        ensures
            trim(raw@).len() == 0 ==> r matches Err(CommandError::Parse(ParseError::Empty)),
            trim(raw@).len() != 0 ==> (r matches Ok(d) && is_device_of(d, raw@)),
    {
        parsed(GetpropParser::parse(raw))
    }
}

/// Battery state via `dumpsys battery`.
pub struct BatteryCmd;

impl Describe for BatteryCmd {
    fn meta(&self) -> (m: CommandMeta)
        ensures
            meta_is(
                m,
                "battery.status"@,
                "Battery level, charging state, temperature and voltage"@,
                Category::Battery,
                false,
            ),
    {
        CommandMeta {
            id: "battery.status",
            description: "Battery level, charging state, temperature and voltage",
            category: Category::Battery,
            mutating: false,
        }
    }
}

impl BatteryCmd {
    pub fn shell_line(&self) -> (r: &'static str)
        ensures
            r@ == "dumpsys battery"@,
    {
        "dumpsys battery"
    }

    /// Decodes `dumpsys battery` output: blank output is an empty-input parse error.
    pub fn decode(&self, raw: &str) -> (r: CommandResult<BatteryInfo>)
        ensures
            trim(raw@).len() == 0 ==> r matches Err(CommandError::Parse(ParseError::Empty)),
            trim(raw@).len() != 0 ==> (r matches Ok(b) && is_battery_of(b, raw@)),
    {
        parsed(BatteryParser::parse(raw))
    }
}

/// Installed third-party packages via `pm list packages -3`.
pub struct ListPackagesCmd;

impl Describe for ListPackagesCmd {
    fn meta(&self) -> (m: CommandMeta)
        ensures
            meta_is(
                m,
                "package.list"@,
                "List installed third-party packages"@,
                Category::Package,
                false,
            ),
    {
        CommandMeta {
            id: "package.list",
            description: "List installed third-party packages",
            category: Category::Package,
            mutating: false,
        }
    }
}

impl ListPackagesCmd {
    pub fn shell_line(&self) -> (r: &'static str)
        ensures
            r@ == "pm list packages -3"@,
    {
        "pm list packages -3"
    }

    /// Every listed package, in order, marked as not a system package.
    pub fn decode(&self, raw: &str) -> (r: CommandResult<Vec<PackageRef>>)
        ensures
            r matches Ok(v) && lists(v@, listed_names(raw@), false),
    {
        parsed(PackageListParser::parse_with_system(raw, false))
    }
}

/// Detailed package info via `dumpsys package <name>`.
pub struct PackageDetailCmd;

impl Describe for PackageDetailCmd {
    fn meta(&self) -> (m: CommandMeta)
        ensures
            meta_is(
                m,
                "package.detail"@,
                "Permissions and components for a specific package"@,
                Category::Package,
                false,
            ),
    {
        CommandMeta {
            id: "package.detail",
            description: "Permissions and components for a specific package",
            category: Category::Package,
            mutating: false,
        }
    }
}

impl PackageDetailCmd {
    /// `dumpsys package <pkg>`.
    pub fn shell_line(&self, pkg: &str) -> (r: String)
        ensures
            r@ == "dumpsys package "@ + pkg@,
    {
        let mut s: Vec<char> = Vec::new();
        push_str(&mut s, "dumpsys package ");
        push_str(&mut s, pkg);
        string_of(s.as_slice())
    }

    /// The detail of `pkg` read from its `dumpsys package` output.
    pub fn decode(&self, pkg: &str, raw: &str) -> (r: CommandResult<PackageDetail>)
        ensures
            r matches Ok(d) && is_detail_of(d, pkg@, raw@),
    {
        parsed(PackageDumpParser::parse_for(pkg, raw))
    }
}

/// Package name argument shared by the data-directory commands.
#[derive(Debug)]
pub struct PackageArg {
    pub package: String,
}

/// `str::trim_start_matches("./")`.
pub open spec fn strip_dot_slash(s: Seq<char>) -> Seq<char>
    decreases s.len(),
{
    if starts_with(s, "./"@) && s.len() >= 2 {
        strip_dot_slash(s.skip(2))
    } else {
        s
    }
}

/// The file names of `find . -type f` output: each line trimmed, blank lines
/// dropped, leading `./` removed.
pub open spec fn data_files(ls: Seq<Seq<char>>) -> Seq<Seq<char>>
    decreases ls.len(),
{
    if ls.len() == 0 {
        seq![]
    } else {
        let rest = data_files(ls.drop_last());
        let t = trim(ls.last());
        if t.len() == 0 {
            rest
        } else {
            rest.push(strip_dot_slash(t))
        }
    }
}

pub open spec fn string_views(ss: Seq<String>) -> Seq<Seq<char>> {
    ss.map_values(|s: String| s@)
}

/// List files in an app's private data directory via
/// `run-as <pkg> find . -type f`. Only works for debuggable packages, or on a
/// rooted device: that's an Android constraint, not a choice this tool makes.
pub struct PackageDataListCmd;

impl Describe for PackageDataListCmd {
    fn meta(&self) -> (m: CommandMeta)
        ensures
            meta_is(
                m,
                "package.data.list"@,
                "List files in a debuggable app's private data directory (run-as)"@,
                Category::Package,
                false,
            ),
    {
        CommandMeta {
            id: "package.data.list",
            description: "List files in a debuggable app's private data directory (run-as)",
            category: Category::Package,
            mutating: false,
        }
    }
}

fn strip_dot_slash_vec(v: &Vec<char>) -> (r: Vec<char>)
    ensures
        r@ == strip_dot_slash(v@),
{
    proof {
        reveal_strlit("./");
    }
    let mut i: usize = 0;
    assert(v@.skip(0) =~= v@);
    while v.len() - i >= 2 && v[i] == '.' && v[i + 1] == '/'
        invariant
            i <= v.len(),
            strip_dot_slash(v@.skip(i as int)) == strip_dot_slash(v@),
        decreases v.len() - i,
    {
        proof {
            reveal_strlit("./");
        }
        let ghost s = v@.skip(i as int);
        assert(s.take(2) =~= "./"@);
        assert(s.skip(2) =~= v@.skip(i + 2));
        i += 2;
    }
    let ghost s = v@.skip(i as int);
    assert(!starts_with(s, "./"@) || s.len() < 2) by {
        if s.len() >= 2 && starts_with(s, "./"@) {
            assert(s.take(2)[0] == s[0] && s.take(2)[1] == s[1]);
            assert(s[0] == v@[i as int] && s[1] == v@[i + 1]);
        }
    }
    let r = copy_range(v, i, v.len());
    assert(r@ =~= s);
    r
}

impl PackageDataListCmd {
    /// `run-as <pkg> find . -type f`, once the package name is checked.
    pub fn shell_line(&self, args: &PackageArg) -> (r: CommandResult<String>)
        ensures
            valid_package_name(args.package@) ==> (r matches Ok(s) && s@ == "run-as "@
                + args.package@ + " find . -type f"@),
            !valid_package_name(args.package@) ==> (r matches Err(CommandError::InvalidArgument(m))
                && m@ == "`"@ + args.package@ + "` is not a valid Android package name"@),
    {
        match validate_package_name(args.package.as_str()) {
            Ok(()) => {},
            Err(e) => return Err(e),
        }
        let mut s: Vec<char> = Vec::new();
        push_str(&mut s, "run-as ");
        push_str(&mut s, args.package.as_str());
        push_str(&mut s, " find . -type f");
        Ok(string_of(s.as_slice()))
    }

    /// The file names listed, or the `run-as` failure.
    pub fn decode(&self, args: &PackageArg, raw: &str) -> (r: CommandResult<Vec<String>>)
        ensures
            run_as_failed(raw@) ==> (r matches Err(CommandError::InvalidArgument(m)) && m@
                == run_as_error(args.package@, raw@)),
            !run_as_failed(raw@) ==> (r matches Ok(v) && string_views(v@) == data_files(
                lines(raw@),
            )),
    {
        match check_run_as_output(args.package.as_str(), raw) {
            Ok(()) => {},
            Err(e) => return Err(e),
        }
        let ls = lines_of(raw);
        let ghost lv = views(ls@);
        let mut out: Vec<String> = Vec::new();
        let mut i: usize = 0;
        assert(lv.take(0) =~= Seq::<Seq<char>>::empty());
        assert(string_views(out@) =~= Seq::<Seq<char>>::empty());
        while i < ls.len()
            invariant
                i <= ls.len(),
                lv == views(ls@),
                lv == lines(raw@),
                string_views(out@) == data_files(lv.take(i as int)),
            decreases ls.len() - i,
        {
            assert(lv.take(i + 1).drop_last() =~= lv.take(i as int));
            assert(lv.take(i + 1).last() == ls@[i as int]@);
            let t = trim_vec(&ls[i]);
            if t.len() > 0 {
                let name = strip_dot_slash_vec(&t);
                let ghost before = out@;
                out.push(string_of(name.as_slice()));
                assert(string_views(out@) =~= string_views(before).push(name@));
            }
            i += 1;
        }
        assert(lv.take(i as int) =~= lv);
        Ok(out)
    }
}

/// Package + relative path argument for reading a single data file.
#[derive(Debug)]
pub struct PackageFileArg {
    pub package: String,
    pub path: String,
}

/// Largest file content this command will return inline; longer files are
/// truncated rather than flooding an agent's context window.
pub const MAX_PACKAGE_FILE_BYTES: usize = 65_536;

/// Read one file from an app's private data directory via
/// `run-as <pkg> cat ./<path>`. `path` must be relative and resolves against
/// the app's data dir.
pub struct PackageDataReadCmd;

impl Describe for PackageDataReadCmd {
    fn meta(&self) -> (m: CommandMeta)
        ensures
            meta_is(
                m,
                "package.data.read"@,
                "Read a file from a debuggable app's private data directory (run-as)"@,
                Category::Package,
                false,
            ),
    {
        CommandMeta {
            id: "package.data.read",
            description: "Read a file from a debuggable app's private data directory (run-as)",
            category: Category::Package,
            mutating: false,
        }
    }
}

impl PackageDataReadCmd {
    /// `run-as <pkg> cat ./<path>`, once both arguments are checked (the
    /// package name first).
    pub fn shell_line(&self, args: &PackageFileArg) -> (r: CommandResult<String>)
        ensures
            valid_package_name(args.package@) && valid_relative_path(args.path@) ==> (r matches Ok(
                s,
            ) && s@ == "run-as "@ + args.package@ + " cat ./"@ + args.path@),
            !valid_package_name(args.package@) ==> (r matches Err(CommandError::InvalidArgument(m))
                && m@ == "`"@ + args.package@ + "` is not a valid Android package name"@),
            valid_package_name(args.package@) && !valid_relative_path(args.path@) ==> (r matches Err(
                CommandError::InvalidArgument(m),
            ) && m@ == "`"@ + args.path@ + "` is not a safe relative path"@),
    {
        match validate_package_name(args.package.as_str()) {
            Ok(()) => {},
            Err(e) => return Err(e),
        }
        match validate_relative_path(args.path.as_str()) {
            Ok(()) => {},
            Err(e) => return Err(e),
        }
        let mut s: Vec<char> = Vec::new();
        push_str(&mut s, "run-as ");
        push_str(&mut s, args.package.as_str());
        push_str(&mut s, " cat ./");
        push_str(&mut s, args.path.as_str());
        Ok(string_of(s.as_slice()))
    }

    /// The file's content, cut to the longest run of whole characters that
    /// fits in [`MAX_PACKAGE_FILE_BYTES`] bytes when the file is longer than
    /// that; the size is the full length in bytes.
    pub fn decode(&self, args: PackageFileArg, raw: String) -> (r: CommandResult<PackageFileContent>)
        requires
            byte_len(raw@) <= usize::MAX,
        ensures
            run_as_failed(raw@) ==> (r matches Err(CommandError::InvalidArgument(m)) && m@
                == run_as_error(args.package@, raw@)),
            !run_as_failed(raw@) ==> (r matches Ok(c) && {
                let n = byte_len(raw@);
                &&& c.path@ == args.path@
                &&& c.size_bytes == n
                &&& c.truncated == (n > MAX_PACKAGE_FILE_BYTES)
                &&& is_byte_capped_prefix(c.content@, raw@, MAX_PACKAGE_FILE_BYTES as nat)
            }),
    {
        match check_run_as_output(args.package.as_str(), raw.as_str()) {
            Ok(()) => {},
            Err(e) => return Err(e),
        }
        let n = raw.as_str().len();
        let truncated = n > MAX_PACKAGE_FILE_BYTES;
        let content = if truncated {
            let cs = chars_of(raw.as_str());
            let k = byte_capped_len(&cs, MAX_PACKAGE_FILE_BYTES);
            let head = copy_range(&cs, 0, k);
            assert(head@ =~= raw@.take(k as int));
            string_of(head.as_slice())
        } else {
            assert(raw@.take(raw@.len() as int) =~= raw@);
            raw
        };
        Ok(PackageFileContent { path: args.path, content, truncated, size_bytes: n as u64 })
    }
}

/// `p` is the longest prefix of `s` whose UTF-8 encoding takes at most `max`
/// bytes: a prefix of `s` that fits, and either all of `s` or one character
/// short of a prefix that does not fit.
pub open spec fn is_byte_capped_prefix(p: Seq<char>, s: Seq<char>, max: nat) -> bool {
    &&& p.len() <= s.len()
    &&& p == s.take(p.len() as int)
    &&& byte_len(p) <= max
    &&& p.len() < s.len() ==> byte_len(s.take(p.len() + 1 as int)) > max
}

/// The number of leading characters of `cs` whose UTF-8 encoding fits in
/// `max` bytes, as many as fit.
fn byte_capped_len(cs: &Vec<char>, max: usize) -> (k: usize)
    requires
        max <= usize::MAX - 4,
    ensures
        is_byte_capped_prefix(cs@.take(k as int), cs@, max as nat),
        k <= cs.len(),
{
    let mut k: usize = 0;
    let mut used: usize = 0;
    assert(cs@.take(0) =~= Seq::<char>::empty());
    while k < cs.len()
        invariant
            k <= cs.len(),
            used == byte_len(cs@.take(k as int)),
            used <= max,
            max <= usize::MAX - 4,
        decreases cs.len() - k,
    {
        let w = char_width(cs[k]);
        proof {
            lemma_byte_len_push(cs@.take(k as int), cs@[k as int]);
            assert(cs@.take(k + 1) =~= cs@.take(k as int).push(cs@[k as int]));
        }
        if used + w > max {
            assert(cs@.take(k as int).take(k as int) =~= cs@.take(k as int));
            return k;
        }
        used = used + w;
        k = k + 1;
    }
    assert(cs@.take(k as int).take(k as int) =~= cs@.take(k as int));
    k
}

/// The props consulted, in order, when `/proc/cpuinfo` names no hardware.
pub open spec fn fallback_prop(i: int) -> Seq<char> {
    if i == 0 {
        "ro.hardware"@
    } else if i == 1 {
        "ro.board.platform"@
    } else {
        "ro.product.board"@
    }
}

/// How many props are consulted at most.
pub const FALLBACK_PROPS: usize = 3;

/// What the CPU command does next: send a shell line, or finish.
pub enum CpuAction {
    Shell(String),
    Done(CpuInfo),
}

/// The CPU command between two shell lines: the summary so far, and the
/// fallback prop whose value it waits for.
pub struct CpuInfoRun {
    pub info: CpuInfo,
    pub prop: usize,
}

/// `action` asks for fallback prop `i`.
pub open spec fn asks_prop(action: CpuAction, i: int) -> bool {
    action matches CpuAction::Shell(s) && s@ == "getprop "@ + fallback_prop(i)
}

/// CPU summary via `cat /proc/cpuinfo`; when the kernel reports no hardware
/// name, the board/chipset props are asked in turn and the first non-blank
/// value is taken.
pub struct CpuInfoCmd;

impl Describe for CpuInfoCmd {
    fn meta(&self) -> (m: CommandMeta)
        ensures
            meta_is(
                m,
                "device.cpu"@,
                "CPU core count and hardware/chipset name"@,
                Category::Device,
                false,
            ),
    {
        CommandMeta {
            id: "device.cpu",
            description: "CPU core count and hardware/chipset name",
            category: Category::Device,
            mutating: false,
        }
    }
}

impl CpuInfoCmd {
    pub fn shell_line(&self) -> (r: &'static str)
        ensures
            r@ == "cat /proc/cpuinfo"@,
    {
        "cat /proc/cpuinfo"
    }

    fn prop_line(i: usize) -> (r: String)
        requires
            i < FALLBACK_PROPS,
        ensures
            r@ == "getprop "@ + fallback_prop(i as int),
    {
        let mut s: Vec<char> = Vec::new();
        push_str(&mut s, "getprop ");
        if i == 0 {
            push_str(&mut s, "ro.hardware");
        } else if i == 1 {
            push_str(&mut s, "ro.board.platform");
        } else {
            push_str(&mut s, "ro.product.board");
        }
        string_of(s.as_slice())
    }

    /// Decodes `/proc/cpuinfo`. With a hardware name the command is done;
    /// without one it goes on to ask the first fallback prop.
    pub fn after_cpuinfo(&self, raw: &str) -> (r: (CpuInfoRun, CpuAction))
        ensures
            r.0.prop == 0,
            r.0.info.core_count == cpu_fold(lines(raw@)).0 as u32,
            r.0.info.hardware@ == cpu_fold(lines(raw@)).1,
            cpu_fold(lines(raw@)).1.len() != 0 ==> r.1 == CpuAction::Done(r.0.info),
            cpu_fold(lines(raw@)).1.len() == 0 ==> asks_prop(r.1, 0),
    {
        let info = match CpuInfoParser::parse(raw) {
            Ok(i) => i,
            Err(_) => {
                assert(false);
                CpuInfo { core_count: 0, hardware: String::new() }
            },
        };
        if info.hardware.as_str().is_empty() {
            let line = Self::prop_line(0);
            (CpuInfoRun { info, prop: 0 }, CpuAction::Shell(line))
        } else {
            let done = CpuInfo { core_count: info.core_count, hardware: info.hardware.clone() };
            (CpuInfoRun { info, prop: 0 }, CpuAction::Done(done))
        }
    }

    /// Takes the value of the prop the run waits for: a non-blank value
    /// (trimmed) becomes the hardware name and the command is done; a blank
    /// one moves on to the next prop, or finishes without a name after the
    /// last.
    pub fn after_prop(&self, run: CpuInfoRun, output: &str) -> (r: (CpuInfoRun, CpuAction))
        requires
            run.prop < FALLBACK_PROPS,
        ensures
            r.0.info.core_count == run.info.core_count,
            trim(output@).len() != 0 ==> r.0.info.hardware@ == trim(output@) && r.1
                == CpuAction::Done(r.0.info),
            trim(output@).len() == 0 ==> r.0.info.hardware@ == run.info.hardware@,
            trim(output@).len() == 0 && run.prop + 1 < FALLBACK_PROPS ==> r.0.prop == run.prop + 1
                && asks_prop(r.1, run.prop + 1),
            trim(output@).len() == 0 && run.prop + 1 >= FALLBACK_PROPS ==> r.1 == CpuAction::Done(
                r.0.info,
            ),
    {
        let v = trim_vec(&chars_of(output));
        if v.len() > 0 {
            let info = CpuInfo { core_count: run.info.core_count, hardware: string_of(v.as_slice()) };
            let done = CpuInfo { core_count: info.core_count, hardware: info.hardware.clone() };
            (CpuInfoRun { info, prop: run.prop }, CpuAction::Done(done))
        } else if run.prop + 1 < FALLBACK_PROPS {
            let line = Self::prop_line(run.prop + 1);
            (CpuInfoRun { info: run.info, prop: run.prop + 1 }, CpuAction::Shell(line))
        } else {
            let done = CpuInfo { core_count: run.info.core_count, hardware: run.info.hardware.clone() };
            (run, CpuAction::Done(done))
        }
    }
}

/// Screen geometry via `wm size` + `wm density`.
pub struct ScreenInfoCmd;

impl Describe for ScreenInfoCmd {
    fn meta(&self) -> (m: CommandMeta)
        ensures
            meta_is(m, "device.screen"@, "Screen resolution and density"@, Category::Device, false),
    {
        CommandMeta {
            id: "device.screen",
            description: "Screen resolution and density",
            category: Category::Device,
            mutating: false,
        }
    }
}

impl ScreenInfoCmd {
    /// The two lines, sent in this order: size, then density.
    pub fn shell_lines(&self) -> (r: (&'static str, &'static str))
        ensures
            r.0@ == "wm size"@,
            r.1@ == "wm density"@,
    {
        ("wm size", "wm density")
    }

    pub fn decode(&self, size_raw: &str, density_raw: &str) -> (r: CommandResult<ScreenInfo>)
        ensures
            r matches Ok(s) && (s.width, s.height) == dims_of(size_raw@) && s.density_dpi
                == density_of(density_raw@),
    {
        parsed(ScreenInfoParser::parse_combined(size_raw, density_raw))
    }
}

/// RAM totals via `cat /proc/meminfo`.
pub struct MemInfoCmd;

impl Describe for MemInfoCmd {
    fn meta(&self) -> (m: CommandMeta)
        ensures
            meta_is(m, "device.memory"@, "Total and available RAM"@, Category::Device, false),
    {
        CommandMeta {
            id: "device.memory",
            description: "Total and available RAM",
            category: Category::Device,
            mutating: false,
        }
    }
}

impl MemInfoCmd {
    pub fn shell_line(&self) -> (r: &'static str)
        ensures
            r@ == "cat /proc/meminfo"@,
    {
        "cat /proc/meminfo"
    }

    /// Decodes `/proc/meminfo`; no usable `MemTotal` line is a parse error.
    pub fn decode(&self, raw: &str) -> (r: CommandResult<MemoryInfo>)
        ensures
            ({
                let (t, a) = mem_fold(lines(raw@));
                &&& t == 0 ==> (r matches Err(
                    CommandError::Parse(ParseError::UnexpectedFormat(m)),
                ) && m@ == "no MemTotal line found"@)
                &&& t != 0 ==> (r matches Ok(info) && info.total_kb == t && info.available_kb
                    == a)
            }),
    {
        parsed(MemInfoParser::parse(raw))
    }
}

pub open spec fn storage_views(es: Seq<StorageEntry>) -> Seq<
    crate::parser::model::StorageEntryView,
> {
    es.map_values(|e: StorageEntry| e@)
}

/// Mounted filesystem usage via `df`.
pub struct StorageInfoCmd;

impl Describe for StorageInfoCmd {
    fn meta(&self) -> (m: CommandMeta)
        ensures
            meta_is(
                m,
                "device.storage"@,
                "Mounted filesystem sizes and free space"@,
                Category::Device,
                false,
            ),
    {
        CommandMeta {
            id: "device.storage",
            description: "Mounted filesystem sizes and free space",
            category: Category::Device,
            mutating: false,
        }
    }
}

impl StorageInfoCmd {
    pub fn shell_line(&self) -> (r: &'static str)
        ensures
            r@ == "df"@,
    {
        "df"
    }

    pub fn decode(&self, raw: &str) -> (r: CommandResult<Vec<StorageEntry>>)
        ensures
            r matches Ok(es) && storage_views(es@) == rows_of(after_header(lines(raw@))),
    {
        parsed(StorageParser::parse(raw))
    }
}

/// IMEI via `dumpsys iphonesubinfo`. Frequently empty on Android 10+: that's
/// a permission gap on the device, not a command failure.
pub struct ImeiInfoCmd;

impl Describe for ImeiInfoCmd {
    fn meta(&self) -> (m: CommandMeta)
        ensures
            meta_is(
                m,
                "device.imei"@,
                "Device IMEI, if readable without a privileged permission"@,
                Category::Device,
                false,
            ),
    {
        CommandMeta {
            id: "device.imei",
            description: "Device IMEI, if readable without a privileged permission",
            category: Category::Device,
            mutating: false,
        }
    }
}

impl ImeiInfoCmd {
    pub fn shell_line(&self) -> (r: &'static str)
        ensures
            r@ == "dumpsys iphonesubinfo"@,
    {
        "dumpsys iphonesubinfo"
    }

    pub fn decode(&self, raw: &str) -> (r: CommandResult<ImeiInfo>)
        ensures
            r matches Ok(info) && info.imei@ == imei_of(lines(raw@)),
    {
        parsed(ImeiInfoParser::parse(raw))
    }
}

/// Optional filters for a logcat snapshot.
#[derive(Debug)]
pub struct LogcatArgs {
    /// Limit to this many most-recent lines (applied after parsing).
    pub limit: Option<usize>,
}

impl Default for LogcatArgs {
    fn default() -> (r: Self)
        ensures
            r.limit is None,
    {
        LogcatArgs { limit: None }
    }
}

/// The last `limit` items of `s` (all of them when there are fewer).
pub open spec fn last_n<T>(s: Seq<T>, limit: Option<usize>) -> Seq<T> {
    match limit {
        Some(n) => if s.len() > n {
            s.skip(s.len() - n)
        } else {
            s
        },
        None => s,
    }
}

/// A bounded logcat snapshot via `logcat -d -v threadtime`.
pub struct LogcatSnapshotCmd;

impl Describe for LogcatSnapshotCmd {
    fn meta(&self) -> (m: CommandMeta)
        ensures
            meta_is(
                m,
                "log.snapshot"@,
                "Recent logcat lines (non-streaming snapshot)"@,
                Category::Log,
                false,
            ),
    {
        CommandMeta {
            id: "log.snapshot",
            description: "Recent logcat lines (non-streaming snapshot)",
            category: Category::Log,
            mutating: false,
        }
    }
}

impl LogcatSnapshotCmd {
    pub fn shell_line(&self) -> (r: &'static str)
        ensures
            r@ == "logcat -d -v threadtime"@,
    {
        "logcat -d -v threadtime"
    }

    /// The log entries, keeping only the most recent `limit` when one is given.
    pub fn decode(&self, args: &LogcatArgs, raw: &str) -> (r: CommandResult<Vec<LogEntry>>)
        ensures
            r matches Ok(v) && entry_views(v@) == last_n(log_entries(lines(raw@)), args.limit),
    {
        let mut entries = match LogcatParser::parse(raw) {
            Ok(v) => v,
            Err(e) => return Err(CommandError::Parse(e)),
        };
        if let Some(limit) = args.limit {
            let start = entries.len().saturating_sub(limit);
            let ghost before = entries@;
            let tail = entries.split_off(start);
            assert(tail@ =~= before.skip(start as int));
            assert(entry_views(tail@) =~= entry_views(before).skip(start as int));
            proof {
                if before.len() <= limit {
                    assert(before.skip(0) =~= before);
                }
            }
            entries = tail;
        }
        Ok(entries)
    }
}

/// The ids of the built-in commands, in the order they are listed.
pub open spec fn builtin_ids() -> Seq<Seq<char>> {
    seq![
        "device.info"@,
        "battery.status"@,
        "package.list"@,
        "package.detail"@,
        "package.data.list"@,
        "package.data.read"@,
        "device.cpu"@,
        "device.screen"@,
        "device.memory"@,
        "device.storage"@,
        "device.imei"@,
        "log.snapshot"@,
    ]
}

/// The metadata of every built-in command, in the order they are listed:
/// each command's own metadata. No two share an id and none is mutating, so
/// registering them all keeps every one and read-only mode refuses none.
pub fn builtin_metas() -> (r: Vec<CommandMeta>)
    ensures
        r@.map_values(|m: CommandMeta| m.id@) == builtin_ids(),
        forall|i: int, j: int| 0 <= i < j < r@.len() ==> r@[i].id@ != r@[j].id@,
        forall|i: int| 0 <= i < r@.len() ==> !(#[trigger] r@[i]).mutating,
{
    let mut r: Vec<CommandMeta> = Vec::new();
    r.push(DeviceInfoCmd.meta());
    r.push(BatteryCmd.meta());
    r.push(ListPackagesCmd.meta());
    r.push(PackageDetailCmd.meta());
    r.push(PackageDataListCmd.meta());
    r.push(PackageDataReadCmd.meta());
    r.push(CpuInfoCmd.meta());
    r.push(ScreenInfoCmd.meta());
    r.push(MemInfoCmd.meta());
    r.push(StorageInfoCmd.meta());
    r.push(ImeiInfoCmd.meta());
    r.push(LogcatSnapshotCmd.meta());
    proof {
        reveal_strlit("device.info");
        reveal_strlit("battery.status");
        reveal_strlit("package.list");
        reveal_strlit("package.detail");
        reveal_strlit("package.data.list");
        reveal_strlit("package.data.read");
        reveal_strlit("device.cpu");
        reveal_strlit("device.screen");
        reveal_strlit("device.memory");
        reveal_strlit("device.storage");
        reveal_strlit("device.imei");
        reveal_strlit("log.snapshot");
        let ids = builtin_ids();
        assert(r@.map_values(|m: CommandMeta| m.id@) =~= ids);
        assert forall|i: int, j: int| 0 <= i < j < r@.len() implies r@[i].id@ != r@[j].id@ by {
            assert(r@[i].id@ == ids[i] && r@[j].id@ == ids[j]);
            if ids[i].len() == ids[j].len() {
                assert(ids[i][0] != ids[j][0] || ids[i][7] != ids[j][7] || ids[i][8] != ids[j][8]
                    || ids[i][13] != ids[j][13]);
            }
        }
    }
    r
}

} // verus!
