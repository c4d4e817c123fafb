//! Parser for `adb shell pm list packages [-s|-3]` output.
//!
//! Each line is `package:<name>`. The system/third-party distinction comes
//! from *which* flag was passed, not from the text, so
//! [`PackageListParser::parse_with_system`] takes it as an argument.

use vstd::prelude::*;
use vstd::string::StringExecFns;

use crate::parser::model::{PackageRef, PackageRefView};
use crate::parser::{Parse, ParseError, ParseResult};
use crate::text::{
    chars_of, lines, lines_of, string_of, strip_prefix, strip_prefix_str, trim, trim_vec, views,
};

verus! {

/// Parses `pm list packages` output into package references.
pub struct PackageListParser;

/// The trimmed names of the trimmed lines that start with `package:`, in order.
pub open spec fn package_names(ls: Seq<Seq<char>>) -> Seq<Seq<char>>
    decreases ls.len(),
{
    if ls.len() == 0 {
        seq![]
    } else {
        let rest = package_names(ls.drop_last());
        match strip_prefix(trim(ls.last()), "package:"@) {
            Some(n) => rest.push(trim(n)),
            None => rest,
        }
    }
}

/// The names that `pm list packages` output lists (none when it is blank).
pub open spec fn listed_names(raw: Seq<char>) -> Seq<Seq<char>> {
    if trim(raw).len() == 0 {
        seq![]
    } else {
        package_names(lines(raw))
    }
}

/// `v` lists exactly `names`, in order, each tagged with `system`.
pub open spec fn lists(v: Seq<PackageRef>, names: Seq<Seq<char>>, system: bool) -> bool {
    &&& v.len() == names.len()
    &&& forall|i: int| 0 <= i < v.len() ==> (#[trigger] v[i])@ == PackageRefView { name: names[i], system }
}

impl PackageListParser {
    /// Parse, tagging every entry with the given `system` flag. Callers know
    /// whether they ran `-s` (system) or `-3` (third party). Never fails.
    pub fn parse_with_system(raw: &str, system: bool) -> (r: ParseResult<Vec<PackageRef>>)
        ensures
            r matches Ok(v) && lists(v@, listed_names(raw@), system),
    {
        let chars = chars_of(raw);
        let t = trim_vec(&chars);
        if t.len() == 0 {
            return Ok(Vec::new());
        }
        let ls = lines_of(raw);
        let ghost lv = views(ls@);
        let mut out: Vec<PackageRef> = Vec::new();
        let mut i: usize = 0;
        assert(lv.take(0) =~= Seq::<Seq<char>>::empty());
        while i < ls.len()
            invariant
                i <= ls.len(),
                lv == views(ls@),
                lv == lines(raw@),
                lists(out@, package_names(lv.take(i as int)), system),
            decreases ls.len() - i,
        {
            assert(lv.take(i + 1).drop_last() =~= lv.take(i as int));
            assert(lv.take(i + 1).last() == ls@[i as int]@);
            let ghost prev = package_names(lv.take(i as int));
            let line = trim_vec(&ls[i]);
            match strip_prefix_str(&line, "package:") {
                Some(n) => {
                    let name = trim_vec(&n);
                    let ghost before = out@;
                    out.push(PackageRef { name: string_of(name.as_slice()), system });
                    assert(package_names(lv.take(i + 1)) == prev.push(name@));
                    assert forall|j: int| 0 <= j < out@.len() implies (#[trigger] out@[j])@
                        == PackageRefView { name: prev.push(name@)[j], system } by {
                        if j < before.len() {
                            assert(out@[j] == before[j]);
                        }
                    }
                },
                None => {},
            }
            i += 1;
        }
        assert(lv.take(i as int) =~= lv);
        Ok(out)
    }
}

impl Parse for PackageListParser {
    type Output = Vec<PackageRef>;

    /// Every entry is tagged non-system. Fails with
    /// `UnexpectedFormat("no `package:` lines found")` exactly when the output is
    /// not blank but lists no package.
    fn parse(raw: &str) -> (r: ParseResult<Vec<PackageRef>>)
        ensures
            listed_names(raw@).len() == 0 && trim(raw@).len() != 0 ==> (r matches Err(
                ParseError::UnexpectedFormat(m),
            ) && m@ == "no `package:` lines found"@),
            !(listed_names(raw@).len() == 0 && trim(raw@).len() != 0) ==> (r matches Ok(v)
                && lists(v@, listed_names(raw@), false)),
    {
        let out = match PackageListParser::parse_with_system(raw, false) {
            Ok(v) => v,
            Err(e) => return Err(e),
        };
        let chars = chars_of(raw);
        let t = trim_vec(&chars);
        if out.len() == 0 && t.len() != 0 {
            return Err(
                ParseError::UnexpectedFormat(String::from_str("no `package:` lines found")),
            );
        }
        Ok(out)
    }
}

} // verus!
