//! Parser for `adb shell cat /proc/cpuinfo` output.
//!
//! Core count is the number of `processor : N` lines; `Hardware` is whatever
//! the SoC vendor put there (board/chipset name). CPU architecture isn't
//! parsed here; callers use [`crate::parser::model::DeviceInfo::abi`].

use vstd::prelude::*;

use crate::parser::model::CpuInfo;
use crate::parser::{Parse, ParseResult};
use crate::text::{
    chars_of, lines, lines_of, split_once, split_once_vec, string_of, strip_prefix,
    strip_prefix_str, trim, trim_start, trim_start_vec, trim_vec, views, CharClass,
};

verus! {

/// Parses `/proc/cpuinfo` into a [`CpuInfo`].
pub struct CpuInfoParser;

/// The code of `c` with ASCII upper case letters made lower case.
pub open spec fn ascii_lower_code(c: char) -> int {
    if 'A' <= c && c <= 'Z' {
        (c as u32) + 32
    } else {
        c as u32 as int
    }
}

/// `str::eq_ignore_ascii_case` (for strings that are the same length in
/// bytes exactly when they are in characters, as any ASCII `b` makes them).
pub open spec fn eq_ignore_ascii_case(a: Seq<char>, b: Seq<char>) -> bool {
    a.len() == b.len() && forall|i: int|
        0 <= i < a.len() ==> ascii_lower_code(#[trigger] a[i]) == ascii_lower_code(b[i])
}

/// A trimmed line `processor<white space>:...`.
pub open spec fn is_processor_line(t: Seq<char>) -> bool {
    match strip_prefix(t, "processor"@) {
        Some(rest) => {
            let r = trim_start(rest);
            r.len() > 0 && r[0] == ':'
        },
        None => false,
    }
}

/// (number of processor lines, hardware name) after the given lines: a line
/// starting with `processor` is counted when a colon follows; any other
/// `<key>: <value>` line whose key is `Hardware` in any case sets the name.
pub open spec fn cpu_fold(ls: Seq<Seq<char>>) -> (nat, Seq<char>)
    decreases ls.len(),
{
    if ls.len() == 0 {
        (0, seq![])
    } else {
        let (c, h) = cpu_fold(ls.drop_last());
        let t = trim(ls.last());
        if strip_prefix(t, "processor"@) is Some {
            if is_processor_line(t) {
                (c + 1, h)
            } else {
                (c, h)
            }
        } else {
            match split_once(t, CharClass::Is(':')) {
                Some((k, v)) => if eq_ignore_ascii_case(trim(k), "Hardware"@) {
                    (c, trim(v))
                } else {
                    (c, h)
                },
                None => (c, h),
            }
        }
    }
}

pub fn eq_ignore_ascii_case_vec(a: &Vec<char>, b: &Vec<char>) -> (r: bool)
    ensures
        r == eq_ignore_ascii_case(a@, b@),
{
    if a.len() != b.len() {
        return false;
    }
    let mut i: usize = 0;
    while i < a.len()
        invariant
            i <= a.len(),
            a.len() == b.len(),
            forall|j: int| 0 <= j < i ==> ascii_lower_code(#[trigger] a@[j]) == ascii_lower_code(b@[j]),
        decreases a.len() - i,
    {
        let x = a[i];
        let y = b[i];
        let lx: u32 = if 'A' <= x && x <= 'Z' {
            (x as u32) + 32
        } else {
            x as u32
        };
        let ly: u32 = if 'A' <= y && y <= 'Z' {
            (y as u32) + 32
        } else {
            y as u32
        };
        if lx != ly {
            return false;
        }
        i += 1;
    }
    true
}

impl Parse for CpuInfoParser {
    type Output = CpuInfo;

    /// Never fails; the core count keeps the low 32 bits of the count.
    fn parse(raw: &str) -> (r: ParseResult<CpuInfo>)
        ensures
            r matches Ok(info) && info.core_count == cpu_fold(lines(raw@)).0 as u32
                && info.hardware@ == cpu_fold(lines(raw@)).1,
    {
        let ls = lines_of(raw);
        let ghost lv = views(ls@);
        let hardware_key = chars_of("Hardware");
        let mut core_count: usize = 0;
        let mut hardware: Vec<char> = Vec::new();
        let mut i: usize = 0;
        assert(lv.take(0) =~= Seq::<Seq<char>>::empty());
        while i < ls.len()
            invariant
                i <= ls.len(),
                core_count <= i,
                lv == views(ls@),
                lv == lines(raw@),
                hardware_key@ == "Hardware"@,
                cpu_fold(lv.take(i as int)) == (core_count as nat, hardware@),
            decreases ls.len() - i,
        {
            assert(lv.take(i + 1).drop_last() =~= lv.take(i as int));
            assert(lv.take(i + 1).last() == ls@[i as int]@);
            let line = trim_vec(&ls[i]);
            match strip_prefix_str(&line, "processor") {
                Some(rest) => {
                    let r = trim_start_vec(&rest);
                    if r.len() > 0 && r[0] == ':' {
                        core_count += 1;
                    }
                },
                None => match split_once_vec(&line, CharClass::Is(':')) {
                    Some((k, v)) => {
                        let kt = trim_vec(&k);
                        if eq_ignore_ascii_case_vec(&kt, &hardware_key) {
                            hardware = trim_vec(&v);
                        }
                    },
                    None => {},
                },
            }
            i += 1;
        }
        assert(lv.take(i as int) =~= lv);
        Ok(CpuInfo { core_count: core_count as u32, hardware: string_of(hardware.as_slice()) })
    }
}

} // verus!
