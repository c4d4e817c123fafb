//! Parser for `adb shell dumpsys battery` output.
//!
//! The dump is a flat list of `  key: value` lines under a header. We read the
//! handful of fields we expose.

use vstd::prelude::*;
use vstd::string::StringExecFns;

use crate::parser::model::{BatteryInfo, BatteryStatus};
use crate::parser::props::{colon_map, colon_pairs, pairs_map, value_or_empty, PropMap};
use crate::parser::{Parse, ParseError, ParseResult};
use crate::text::{eq_str, lines, lines_of, parse_i64, parse_i64_vec, trim, trim_vec, chars_of};

verus! {

/// Parses `dumpsys battery` output into a [`BatteryInfo`].
pub struct BatteryParser;

/// The `key: value` map of a battery dump.
pub open spec fn battery_map(raw: Seq<char>) -> Map<Seq<char>, Seq<char>> {
    pairs_map(colon_pairs(lines(raw)))
}

/// The integer value of `key`, if it has one that parses.
pub open spec fn battery_num(m: Map<Seq<char>, Seq<char>>, key: Seq<char>) -> Option<i64> {
    if m.contains_key(key) {
        parse_i64(m[key])
    } else {
        None
    }
}

pub open spec fn num_or(m: Map<Seq<char>, Seq<char>>, key: Seq<char>, d: i64) -> i64 {
    match battery_num(m, key) {
        Some(n) => n,
        None => d,
    }
}

/// dumpsys `status` codes: 2 charging, 3 discharging, 4 not charging, 5 full.
pub open spec fn status_of(code: i64) -> BatteryStatus {
    if code == 2 {
        BatteryStatus::Charging
    } else if code == 3 {
        BatteryStatus::Discharging
    } else if code == 4 {
        BatteryStatus::NotCharging
    } else if code == 5 {
        BatteryStatus::Full
    } else {
        BatteryStatus::Unknown
    }
}

pub open spec fn is_true(m: Map<Seq<char>, Seq<char>>, key: Seq<char>) -> bool {
    m.contains_key(key) && m[key] == "true"@
}

/// The first of AC / USB / Wireless whose `<source> powered` is `true`, else None.
pub open spec fn power_source_of(m: Map<Seq<char>, Seq<char>>) -> Seq<char> {
    if is_true(m, "AC powered"@) {
        "AC"@
    } else if is_true(m, "USB powered"@) {
        "USB"@
    } else if is_true(m, "Wireless powered"@) {
        "Wireless"@
    } else {
        "None"@
    }
}

/// `b` is what parsing a non-blank battery dump gives.
pub open spec fn is_battery_of(b: BatteryInfo, raw: Seq<char>) -> bool {
    let m = battery_map(raw);
    &&& b.level == num_or(m, "level"@, 0) as u8
    &&& b.scale == num_or(m, "scale"@, 100) as u8
    &&& b.power_source@ == power_source_of(m)
    &&& b.status == status_of(num_or(m, "status"@, 1))
    &&& b.health@ == value_or_empty(m, "health"@)
    &&& b.temperature_deci_c == num_or(m, "temperature"@, 0)
    &&& b.voltage_mv == num_or(m, "voltage"@, 0) as u32
}

fn num_or_exec(m: &PropMap, key: &str, d: i64) -> (r: i64)
    ensures
        r == num_or(m@, key@, d),
{
    let k = chars_of(key);
    match m.get_chars(&k) {
        Some(v) => match parse_i64_vec(v) {
            Some(n) => n,
            None => d,
        },
        None => d,
    }
}

fn is_true_exec(m: &PropMap, key: &str) -> (r: bool)
    ensures
        r == is_true(m@, key@),
{
    let k = chars_of(key);
    match m.get_chars(&k) {
        Some(v) => eq_str(v, "true"),
        None => false,
    }
}

impl BatteryParser {
    /// The `key: value` map of the dump: each line with a colon, split at the
    /// first colon and trimmed; a later line for the same key wins.
    pub fn to_map(raw: &str) -> (r: PropMap)
        ensures
            r@ == battery_map(raw@),
    {
        let ls = lines_of(raw);
        colon_map(&ls)
    }
}

impl Parse for BatteryParser {
    type Output = BatteryInfo;

    /// Fails with `Empty` exactly when the dump is blank. Numeric fields that
    /// are missing or do not parse take their defaults (level 0, scale 100,
    /// status unknown, temperature 0, voltage 0); like the numeric casts of
    /// the dump's values, level, scale and voltage keep the low bits.
    fn parse(raw: &str) -> (r: ParseResult<BatteryInfo>)
        ensures
            trim(raw@).len() == 0 ==> r == Err::<BatteryInfo, ParseError>(ParseError::Empty),
            trim(raw@).len() != 0 ==> (r matches Ok(b) && is_battery_of(b, raw@)),
    {
        let chars = chars_of(raw);
        let t = trim_vec(&chars);
        if t.len() == 0 {
            return Err(ParseError::Empty);
        }
        let m = BatteryParser::to_map(raw);
        let code = num_or_exec(&m, "status", 1);
        let status = if code == 2 {
            BatteryStatus::Charging
        } else if code == 3 {
            BatteryStatus::Discharging
        } else if code == 4 {
            BatteryStatus::NotCharging
        } else if code == 5 {
            BatteryStatus::Full
        } else {
            BatteryStatus::Unknown
        };
        let power_source = if is_true_exec(&m, "AC powered") {
            String::from_str("AC")
        } else if is_true_exec(&m, "USB powered") {
            String::from_str("USB")
        } else if is_true_exec(&m, "Wireless powered") {
            String::from_str("Wireless")
        } else {
            String::from_str("None")
        };
        let level = num_or_exec(&m, "level", 0);
        let scale = num_or_exec(&m, "scale", 100);
        let voltage = num_or_exec(&m, "voltage", 0);
        Ok(
            BatteryInfo {
                level: level as u8,
                scale: scale as u8,
                power_source,
                status,
                health: m.get_or_empty("health"),
                temperature_deci_c: num_or_exec(&m, "temperature", 0),
                voltage_mv: voltage as u32,
            },
        )
    }
}

} // verus!
