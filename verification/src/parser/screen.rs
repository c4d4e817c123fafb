//! Parser for `adb shell wm size` + `adb shell wm density` output.
//!
//! Each command's output is a single line such as `Physical size: 1080x2340`
//! or `Physical density: 420`. Two separate shell calls are needed, so this
//! parser takes both raw strings at once.

use vstd::prelude::*;

use crate::parser::model::ScreenInfo;
use crate::parser::ParseResult;
use crate::text::{
    lines, lines_of, parse_u32, parse_u32_vec, split_once, split_once_vec, trim, trim_vec, views,
    CharClass,
};

verus! {

/// Parses the two `wm` outputs into a [`ScreenInfo`].
pub struct ScreenInfoParser;

/// What follows the first colon of the first line that has one.
pub open spec fn first_colon_value(ls: Seq<Seq<char>>) -> Option<Seq<char>>
    decreases ls.len(),
{
    if ls.len() == 0 {
        None
    } else {
        match split_once(ls[0], CharClass::Is(':')) {
            Some((_, v)) => Some(v),
            None => first_colon_value(ls.drop_first()),
        }
    }
}

pub open spec fn u32_or_zero(s: Seq<char>) -> u32 {
    match parse_u32(trim(s)) {
        Some(n) => n,
        None => 0,
    }
}

/// Width and height from `<w>x<h>` (or `X`) after the first colon; 0 where missing.
pub open spec fn dims_of(size_raw: Seq<char>) -> (u32, u32) {
    match first_colon_value(lines(size_raw)) {
        Some(v) => match split_once(trim(v), CharClass::Either('x', 'X')) {
            Some((w, h)) => (u32_or_zero(w), u32_or_zero(h)),
            None => (0, 0),
        },
        None => (0, 0),
    }
}

/// The density after the first colon, or 0.
pub open spec fn density_of(density_raw: Seq<char>) -> u32 {
    match first_colon_value(lines(density_raw)) {
        Some(v) => u32_or_zero(v),
        None => 0,
    }
}

fn first_colon_value_vec(ls: &Vec<Vec<char>>) -> (r: Option<Vec<char>>)
    ensures
        match r {
            Some(v) => first_colon_value(views(ls@)) == Some(v@),
            None => first_colon_value(views(ls@)) is None,
        },
{
    let ghost lv = views(ls@);
    let mut i: usize = 0;
    assert(lv.skip(0) =~= lv);
    while i < ls.len()
        invariant
            i <= ls.len(),
            lv == views(ls@),
            first_colon_value(lv) == first_colon_value(lv.skip(i as int)),
        decreases ls.len() - i,
    {
        assert(lv.skip(i as int)[0] == ls@[i as int]@);
        assert(lv.skip(i as int).drop_first() =~= lv.skip(i + 1));
        match split_once_vec(&ls[i], CharClass::Is(':')) {
            Some((_, v)) => return Some(v),
            None => {},
        }
        i += 1;
    }
    assert(lv.skip(i as int) =~= Seq::<Seq<char>>::empty());
    None
}

fn u32_or_zero_vec(s: &Vec<char>) -> (r: u32)
    ensures
        r == u32_or_zero(s@),
{
    let t = trim_vec(s);
    match parse_u32_vec(&t) {
        Some(n) => n,
        None => 0,
    }
}

impl ScreenInfoParser {
    /// Never fails; fields that cannot be read are 0.
    pub fn parse_combined(size_raw: &str, density_raw: &str) -> (r: ParseResult<ScreenInfo>)
        ensures
            r matches Ok(s) && (s.width, s.height) == dims_of(size_raw@) && s.density_dpi
                == density_of(density_raw@),
    {
        let size_lines = lines_of(size_raw);
        let (width, height) = match first_colon_value_vec(&size_lines) {
            Some(v) => {
                let dims = trim_vec(&v);
                match split_once_vec(&dims, CharClass::Either('x', 'X')) {
                    Some((w, h)) => (u32_or_zero_vec(&w), u32_or_zero_vec(&h)),
                    None => (0, 0),
                }
            },
            None => (0, 0),
        };
        let density_lines = lines_of(density_raw);
        let density_dpi = match first_colon_value_vec(&density_lines) {
            Some(v) => u32_or_zero_vec(&v),
            None => 0,
        };
        Ok(ScreenInfo { width, height, density_dpi })
    }
}

} // verus!
