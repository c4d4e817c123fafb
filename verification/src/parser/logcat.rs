//! Parser for `adb logcat -v threadtime` output.
//!
//! The `threadtime` format looks like
//! `06-18 14:23:01.123  1234  1250 E MyTag: something failed`,
//! i.e. `<date> <time> <pid> <tid> <priority> <tag>: <message>`.

use vstd::prelude::*;

use crate::parser::model::{priority_of, LogEntry, LogEntryView, LogPriority};
use crate::parser::{Parse, ParseResult};
use crate::text::{
    chars_of, copy_range, find, find_from, has_char, is_decimal_digit, is_decimal_digit_char, is_ws,
    lines, lines_of,
    parse_u32, parse_u32_vec, run_end, run_end_vec, string_of, trim, trim_vec, views, CharClass,
};

verus! {

/// Parses logcat output into log entries.
pub struct LogcatParser;

pub open spec fn is_priority_code(c: char) -> bool {
    c == 'V' || c == 'D' || c == 'I' || c == 'W' || c == 'E' || c == 'F'
}

/// `hh:mm:ss.mmm` at position `b`.
pub open spec fn time_at(s: Seq<char>, b: int) -> bool {
    &&& 0 <= b && b + 12 <= s.len()
    &&& is_decimal_digit(s[b]) && is_decimal_digit(s[b + 1]) && s[b + 2] == ':'
    &&& is_decimal_digit(s[b + 3]) && is_decimal_digit(s[b + 4]) && s[b + 5] == ':'
    &&& is_decimal_digit(s[b + 6]) && is_decimal_digit(s[b + 7]) && s[b + 8] == '.'
    &&& is_decimal_digit(s[b + 9]) && is_decimal_digit(s[b + 10]) && is_decimal_digit(s[b + 11])
}

/// `MM-DD` at the start.
pub open spec fn date_at_start(s: Seq<char>) -> bool {
    s.len() >= 5 && is_decimal_digit(s[0]) && is_decimal_digit(s[1]) && s[2] == '-' && is_decimal_digit(s[3])
        && is_decimal_digit(s[4])
}

pub open spec fn u32_or_zero(s: Seq<char>) -> u32 {
    match parse_u32(s) {
        Some(n) => n,
        None => 0,
    }
}

/// A `threadtime` line: `MM-DD`, white space, `hh:mm:ss.mmm`, white space,
/// the pid digits, white space, the tid digits, white space, one of
/// `VDIWEF`, white space, the tag up to the first `:`, then the message after
/// at most one white-space character, holding no line break. Digits are
/// Unicode decimal digits, as `\d` matches them; a pid or tid that is not
/// ASCII digits or is too large for `u32` reads as 0, and the tag is trimmed.
pub open spec fn log_line(l: Seq<char>) -> Option<LogEntryView> {
    if !date_at_start(l) {
        None
    } else {
        let b = run_end(l, 5, CharClass::Space);
        let c = run_end(l, b + 12, CharClass::Space);
        let d = run_end(l, c, CharClass::Decimal);
        let e = run_end(l, d, CharClass::Space);
        let f = run_end(l, e, CharClass::Decimal);
        let g = run_end(l, f, CharClass::Space);
        let h = run_end(l, g + 1, CharClass::Space);
        if b == 5 || !time_at(l, b) || c == b + 12 || d == c || e == d || f == e || g == f || g
            >= l.len() || !is_priority_code(l[g]) || h == g + 1 {
            None
        } else {
            match find(l.skip(h), CharClass::Is(':')) {
                None => None,
                Some(k) => {
                    let r = l.skip(h + k + 1);
                    let msg = if r.len() > 0 && is_ws(r[0]) {
                        r.drop_first()
                    } else {
                        r
                    };
                    if msg.contains('\n') {
                        None
                    } else {
                        Some(
                            LogEntryView {
                                timestamp: l.take(b + 12),
                                pid: u32_or_zero(l.subrange(c, d)),
                                tid: u32_or_zero(l.subrange(e, f)),
                                priority: priority_of(l[g]),
                                tag: trim(l.subrange(h, h + k)),
                                message: msg,
                            },
                        )
                    }
                },
            }
        }
    }
}

/// The entries of the lines that are log lines, in order.
pub open spec fn log_entries(ls: Seq<Seq<char>>) -> Seq<LogEntryView>
    decreases ls.len(),
{
    if ls.len() == 0 {
        seq![]
    } else {
        let rest = log_entries(ls.drop_last());
        match log_line(ls.last()) {
            Some(e) => rest.push(e),
            None => rest,
        }
    }
}

pub open spec fn entry_views(v: Seq<LogEntry>) -> Seq<LogEntryView> {
    v.map_values(|e: LogEntry| e@)
}

fn time_at_vec(v: &Vec<char>, b: usize) -> (r: bool)
    ensures
        r == time_at(v@, b as int),
{
    if b > v.len() || v.len() - b < 12 {
        return false;
    }
    let dig = |c: char| -> (r: bool)
        ensures
            r == is_decimal_digit(c),
        { is_decimal_digit_char(c) };
    dig(v[b]) && dig(v[b + 1]) && v[b + 2] == ':' && dig(v[b + 3]) && dig(v[b + 4]) && v[b + 5]
        == ':' && dig(v[b + 6]) && dig(v[b + 7]) && v[b + 8] == '.' && dig(v[b + 9]) && dig(
        v[b + 10],
    ) && dig(v[b + 11])
}

fn u32_or_zero_vec(v: &Vec<char>) -> (r: u32)
    ensures
        r == u32_or_zero(v@),
{
    match parse_u32_vec(v) {
        Some(n) => n,
        None => 0,
    }
}

fn log_line_vec(l: &Vec<char>) -> (r: Option<LogEntry>)
    ensures
        match r {
            Some(e) => log_line(l@) == Some(e@),
            None => log_line(l@) is None,
        },
{
    let dig = |c: char| -> (r: bool)
        ensures
            r == is_decimal_digit(c),
        { is_decimal_digit_char(c) };
    if !(l.len() >= 5 && dig(l[0]) && dig(l[1]) && l[2] == '-' && dig(l[3]) && dig(l[4])) {
        return None;
    }
    let b = run_end_vec(l, 5, CharClass::Space);
    if b == 5 || !time_at_vec(l, b) {
        return None;
    }
    let c = run_end_vec(l, b + 12, CharClass::Space);
    let d = run_end_vec(l, c, CharClass::Decimal);
    let e = run_end_vec(l, d, CharClass::Space);
    let f = run_end_vec(l, e, CharClass::Decimal);
    let g = run_end_vec(l, f, CharClass::Space);
    if c == b + 12 || d == c || e == d || f == e || g == f || g >= l.len() {
        return None;
    }
    let p = l[g];
    if !(p == 'V' || p == 'D' || p == 'I' || p == 'W' || p == 'E' || p == 'F') {
        return None;
    }
    let h = run_end_vec(l, g + 1, CharClass::Space);
    if h == g + 1 {
        return None;
    }
    let k = match find_from(l, h, CharClass::Is(':')) {
        Some(k) => k,
        None => return None,
    };
    let r_start = if k + 1 < l.len() && crate::text::is_ws_char(l[k + 1]) {
        k + 2
    } else {
        k + 1
    };
    let msg = copy_range(l, r_start, l.len());
    proof {
        let r = l@.skip(k + 1);
        if r.len() > 0 && is_ws(r[0]) {
            assert(msg@ =~= r.drop_first());
        } else {
            assert(msg@ =~= r);
        }
        assert(l@.skip(h as int).len() == l@.len() - h);
    }
    if has_char(&msg, '\n') {
        return None;
    }
    let ts = copy_range(l, 0, b + 12);
    let pid_chars = copy_range(l, c, d);
    let tid_chars = copy_range(l, e, f);
    let tag_raw = copy_range(l, h, k);
    let tag = trim_vec(&tag_raw);
    assert(ts@ =~= l@.take(b + 12));
    Some(
        LogEntry {
            timestamp: string_of(ts.as_slice()),
            pid: u32_or_zero_vec(&pid_chars),
            tid: u32_or_zero_vec(&tid_chars),
            priority: LogPriority::from_code(p),
            tag: string_of(tag.as_slice()),
            message: string_of(msg.as_slice()),
        },
    )
}

impl LogcatParser {
    /// Parse a single line, returning `None` for lines that aren't log entries
    /// (e.g. `--------- beginning of main` separators).
    pub fn parse_line(line: &str) -> (r: Option<LogEntry>)
        ensures
            match r {
                Some(e) => log_line(line@) == Some(e@),
                None => log_line(line@) is None,
            },
    {
        let l = chars_of(line);
        log_line_vec(&l)
    }
}

impl Parse for LogcatParser {
    type Output = Vec<LogEntry>;

    /// Never fails; lines that are not log entries are skipped.
    fn parse(raw: &str) -> (r: ParseResult<Vec<LogEntry>>)
        ensures
            r matches Ok(v) && entry_views(v@) == log_entries(lines(raw@)),
    {
        let ls = lines_of(raw);
        let ghost lv = views(ls@);
        let mut out: Vec<LogEntry> = Vec::new();
        let mut i: usize = 0;
        assert(lv.take(0) =~= Seq::<Seq<char>>::empty());
        assert(entry_views(out@) =~= Seq::<LogEntryView>::empty());
        while i < ls.len()
            invariant
                i <= ls.len(),
                lv == views(ls@),
                lv == lines(raw@),
                entry_views(out@) == log_entries(lv.take(i as int)),
            decreases ls.len() - i,
        {
            assert(lv.take(i + 1).drop_last() =~= lv.take(i as int));
            assert(lv.take(i + 1).last() == ls@[i as int]@);
            let ghost prev = entry_views(out@);
            match log_line_vec(&ls[i]) {
                Some(e) => {
                    let ghost ev = e@;
                    out.push(e);
                    assert(entry_views(out@) =~= prev.push(ev));
                },
                None => {},
            }
            i += 1;
        }
        assert(lv.take(i as int) =~= lv);
        Ok(out)
    }
}

} // verus!
