//! Parser for `adb shell cat /proc/meminfo` output.
//!
//! Lines look like `MemTotal:        3756128 kB`. We only need the two
//! totals; everything else in the dump is ignored.

use vstd::prelude::*;
use vstd::string::StringExecFns;

use crate::parser::model::MemoryInfo;
use crate::parser::{Parse, ParseError, ParseResult};
use crate::text::{
    lines, lines_of, parse_u64, parse_u64_vec, strip_prefix, strip_prefix_str, tokens, tokens_vec,
    trim, trim_vec, views,
};

verus! {

/// Parses `/proc/meminfo` into a [`MemoryInfo`].
pub struct MemInfoParser;

/// The first white-space separated word of `s` as a number, or 0.
pub open spec fn kb_of(s: Seq<char>) -> u64 {
    let toks = tokens(trim(s));
    if toks.len() > 0 {
        match parse_u64(toks[0]) {
            Some(n) => n,
            None => 0,
        }
    } else {
        0
    }
}

/// (MemTotal, MemAvailable) after the given lines; a later line of the same
/// kind replaces an earlier one.
pub open spec fn mem_fold(ls: Seq<Seq<char>>) -> (u64, u64)
    decreases ls.len(),
{
    if ls.len() == 0 {
        (0, 0)
    } else {
        let (t, a) = mem_fold(ls.drop_last());
        let l = trim(ls.last());
        match strip_prefix(l, "MemTotal:"@) {
            Some(r) => (kb_of(r), a),
            None => match strip_prefix(l, "MemAvailable:"@) {
                Some(r) => (t, kb_of(r)),
                None => (t, a),
            },
        }
    }
}

/// The first white-space separated word of `s` as a number of kilobytes, or 0.
pub fn parse_kb(s: &Vec<char>) -> (r: u64)
    ensures
        r == kb_of(s@),
{
    let t = trim_vec(s);
    let toks = tokens_vec(&t);
    if toks.len() > 0 {
        assert(views(toks@)[0] == toks@[0]@);
        match parse_u64_vec(&toks[0]) {
            Some(n) => n,
            None => 0,
        }
    } else {
        0
    }
}

impl Parse for MemInfoParser {
    type Output = MemoryInfo;

    /// Fails with `UnexpectedFormat("no MemTotal line found")` exactly when the
    /// total comes out 0 (no `MemTotal:` line, or one without a positive number).
    fn parse(raw: &str) -> (r: ParseResult<MemoryInfo>)
        ensures
            ({
                let (t, a) = mem_fold(lines(raw@));
                &&& t == 0 ==> (r matches Err(ParseError::UnexpectedFormat(m)) && m@
                    == "no MemTotal line found"@)
                &&& t != 0 ==> r == Ok::<MemoryInfo, ParseError>(
                    MemoryInfo { total_kb: t, available_kb: a },
                )
            }),
    {
        let ls = lines_of(raw);
        let ghost lv = views(ls@);
        let mut total_kb: u64 = 0;
        let mut available_kb: u64 = 0;
        let mut i: usize = 0;
        assert(lv.take(0) =~= Seq::<Seq<char>>::empty());
        while i < ls.len()
            invariant
                i <= ls.len(),
                lv == views(ls@),
                lv == lines(raw@),
                mem_fold(lv.take(i as int)) == (total_kb, available_kb),
            decreases ls.len() - i,
        {
            assert(lv.take(i + 1).drop_last() =~= lv.take(i as int));
            assert(lv.take(i + 1).last() == ls@[i as int]@);
            let line = trim_vec(&ls[i]);
            match strip_prefix_str(&line, "MemTotal:") {
                Some(rest) => {
                    total_kb = parse_kb(&rest);
                },
                None => match strip_prefix_str(&line, "MemAvailable:") {
                    Some(rest) => {
                        available_kb = parse_kb(&rest);
                    },
                    None => {},
                },
            }
            i += 1;
        }
        assert(lv.take(i as int) =~= lv);
        if total_kb == 0 {
            return Err(ParseError::UnexpectedFormat(String::from_str("no MemTotal line found")));
        }
        Ok(MemoryInfo { total_kb, available_kb })
    }
}

} // verus!
