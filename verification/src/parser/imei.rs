//! Parser for `adb shell dumpsys iphonesubinfo` output.
//!
//! On Android 10+ this dump commonly returns a permission-denial message
//! instead of a `Device ID = ...` line. That's not a parse error, just an
//! empty IMEI; callers render that as "unavailable".

use vstd::prelude::*;

use crate::parser::model::ImeiInfo;
use crate::parser::{Parse, ParseResult};
use crate::text::{lines, lines_of, string_of, strip_prefix, strip_prefix_str, trim, trim_vec, views};

verus! {

/// Parses `dumpsys iphonesubinfo` output into an [`ImeiInfo`].
pub struct ImeiInfoParser;

/// The trimmed value of the first line whose trimmed text starts with
/// `Device ID = `, or empty when there is none.
pub open spec fn imei_of(ls: Seq<Seq<char>>) -> Seq<char>
    decreases ls.len(),
{
    if ls.len() == 0 {
        seq![]
    } else {
        match strip_prefix(trim(ls[0]), "Device ID = "@) {
            Some(r) => trim(r),
            None => imei_of(ls.drop_first()),
        }
    }
}

impl Parse for ImeiInfoParser {
    type Output = ImeiInfo;

    /// Never fails.
    fn parse(raw: &str) -> (r: ParseResult<ImeiInfo>)
        ensures
            r matches Ok(info) && info.imei@ == imei_of(lines(raw@)),
    {
        let ls = lines_of(raw);
        let ghost lv = views(ls@);
        let mut i: usize = 0;
        assert(lv.skip(0) =~= lv);
        while i < ls.len()
            invariant
                i <= ls.len(),
                lv == views(ls@),
                lv == lines(raw@),
                imei_of(lv) == imei_of(lv.skip(i as int)),
            decreases ls.len() - i,
        {
            assert(lv.skip(i as int)[0] == ls@[i as int]@);
            assert(lv.skip(i as int).drop_first() =~= lv.skip(i + 1));
            let t = trim_vec(&ls[i]);
            match strip_prefix_str(&t, "Device ID = ") {
                Some(rest) => {
                    let v = trim_vec(&rest);
                    return Ok(ImeiInfo { imei: string_of(v.as_slice()) });
                },
                None => {},
            }
            i += 1;
        }
        assert(lv.skip(i as int) =~= Seq::<Seq<char>>::empty());
        Ok(ImeiInfo { imei: String::new() })
    }
}

} // verus!
