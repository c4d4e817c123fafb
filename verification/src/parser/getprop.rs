//! Parser for `adb shell getprop` output.
//!
//! `getprop` emits lines shaped like `[ro.product.model]: [Pixel 7]`. We build
//! a key->value map and pick out the properties we care about for
//! [`DeviceInfo`].

use vstd::prelude::*;

use crate::parser::model::DeviceInfo;
use crate::parser::props::{pairs_map, value_or_empty, PropMap};
use crate::parser::{Parse, ParseError, ParseResult};
use crate::text::{
    chars_of, copy_range, find, find_class, has_char, lines, lines_of, parse_u32, parse_u32_vec, string_of,
    trim, trim_start, trim_start_vec, trim_vec, views, CharClass,
};

verus! {

/// Parses full `getprop` output into a [`DeviceInfo`].
pub struct GetpropParser;

/// A trimmed `getprop` line `[<key>]: [<value>]`: the key is everything up to
/// the first `]` (at least one character), which must be followed by `:`;
/// white space may follow; the value is everything between the next `[` and
/// the `]` that ends the line, and holds no line break.
pub open spec fn prop_line(t: Seq<char>) -> Option<(Seq<char>, Seq<char>)> {
    if t.len() > 0 && t[0] == '[' {
        let body = t.drop_first();
        match find(body, CharClass::Is(']')) {
            Some(k) => if k >= 1 && k + 1 < body.len() && body[k + 1] == ':' {
                let rest = trim_start(body.skip(k + 2));
                if rest.len() >= 2 && rest[0] == '[' && rest.last() == ']' && !rest.subrange(
                    1,
                    rest.len() - 1,
                ).contains('\n') {
                    Some((body.take(k), rest.subrange(1, rest.len() - 1)))
                } else {
                    None
                }
            } else {
                None
            },
            None => None,
        }
    } else {
        None
    }
}

/// The properties of the lines that are property lines, in order.
pub open spec fn prop_pairs(ls: Seq<Seq<char>>) -> Seq<(Seq<char>, Seq<char>)>
    decreases ls.len(),
{
    if ls.len() == 0 {
        seq![]
    } else {
        let rest = prop_pairs(ls.drop_last());
        match prop_line(trim(ls.last())) {
            Some(p) => rest.push(p),
            None => rest,
        }
    }
}

pub open spec fn prop_map(raw: Seq<char>) -> Map<Seq<char>, Seq<char>> {
    pairs_map(prop_pairs(lines(raw)))
}

/// The part of `s` before its first comma.
pub open spec fn first_listed(s: Seq<char>) -> Seq<char> {
    match find(s, CharClass::Is(',')) {
        Some(i) => s.take(i),
        None => s,
    }
}

/// `ro.product.cpu.abi`, or when that is empty the first entry of
/// `ro.product.cpu.abilist` (primary ABI first).
pub open spec fn abi_of(m: Map<Seq<char>, Seq<char>>) -> Seq<char> {
    let a = value_or_empty(m, "ro.product.cpu.abi"@);
    if a.len() > 0 {
        a
    } else {
        first_listed(value_or_empty(m, "ro.product.cpu.abilist"@))
    }
}

pub open spec fn sdk_of(m: Map<Seq<char>, Seq<char>>) -> u32 {
    if m.contains_key("ro.build.version.sdk"@) {
        match parse_u32(m["ro.build.version.sdk"@]) {
            Some(n) => n,
            None => 0,
        }
    } else {
        0
    }
}

/// `d` is the device identity that the properties of `raw` give.
pub open spec fn is_device_of(d: DeviceInfo, raw: Seq<char>) -> bool {
    let m = prop_map(raw);
    &&& d.model@ == value_or_empty(m, "ro.product.model"@)
    &&& d.manufacturer@ == value_or_empty(m, "ro.product.manufacturer"@)
    &&& d.brand@ == value_or_empty(m, "ro.product.brand"@)
    &&& d.android_release@ == value_or_empty(m, "ro.build.version.release"@)
    &&& d.sdk == sdk_of(m)
    &&& d.fingerprint@ == value_or_empty(m, "ro.build.fingerprint"@)
    &&& d.abi@ == abi_of(m)
    &&& d.serial@ == value_or_empty(m, "ro.serialno"@)
}

fn prop_line_vec(t: &Vec<char>) -> (r: Option<(Vec<char>, Vec<char>)>)
    ensures
        match r {
            Some((k, v)) => prop_line(t@) == Some((k@, v@)),
            None => prop_line(t@) is None,
        },
{
    if t.len() == 0 || t[0] != '[' {
        return None;
    }
    let body = copy_range(t, 1, t.len());
    assert(body@ =~= t@.drop_first());
    let k = match find_class(&body, CharClass::Is(']')) {
        Some(k) => k,
        None => return None,
    };
    proof {
        crate::text::lemma_find(body@, CharClass::Is(']'));
    }
    if !(k >= 1 && k + 1 < body.len() && body[k + 1] == ':') {
        return None;
    }
    let after = copy_range(&body, k + 2, body.len());
    assert(after@ =~= body@.skip(k + 2));
    let rest = trim_start_vec(&after);
    if !(rest.len() >= 2 && rest[0] == '[' && rest[rest.len() - 1] == ']') {
        return None;
    }
    let val = copy_range(&rest, 1, rest.len() - 1);
    if has_char(&val, '\n') {
        return None;
    }
    let key = copy_range(&body, 0, k);
    assert(key@ =~= body@.take(k as int));
    Some((key, val))
}

fn first_listed_vec(s: &Vec<char>) -> (r: Vec<char>)
    ensures
        r@ == first_listed(s@),
{
    match find_class(s, CharClass::Is(',')) {
        Some(i) => {
            proof {
                crate::text::lemma_find(s@, CharClass::Is(','));
            }
            let r = copy_range(s, 0, i);
            assert(r@ =~= s@.take(i as int));
            r
        },
        None => {
            let r = copy_range(s, 0, s.len());
            assert(r@ =~= s@);
            r
        },
    }
}

impl GetpropParser {
    /// Parse the raw output into a flat key/value property map: each trimmed
    /// property line, a later line for the same key replacing an earlier one.
    pub fn to_map(raw: &str) -> (r: PropMap)
        ensures
            r@ == prop_map(raw@),
    {
        let ls = lines_of(raw);
        let ghost lv = views(ls@);
        let mut m = PropMap::new();
        let mut i: usize = 0;
        assert(lv.take(0) =~= Seq::<Seq<char>>::empty());
        while i < ls.len()
            invariant
                i <= ls.len(),
                lv == views(ls@),
                lv == lines(raw@),
                m@ == pairs_map(prop_pairs(lv.take(i as int))),
            decreases ls.len() - i,
        {
            assert(lv.take(i + 1).drop_last() =~= lv.take(i as int));
            assert(lv.take(i + 1).last() == ls@[i as int]@);
            let ghost prev = prop_pairs(lv.take(i as int));
            let t = trim_vec(&ls[i]);
            match prop_line_vec(&t) {
                Some((k, v)) => {
                    let ghost p = (k@, v@);
                    assert(prop_pairs(lv.take(i + 1)) == prev.push(p));
                    assert(prev.push(p).drop_last() =~= prev);
                    m.insert(k, v);
                },
                None => {
                    assert(prop_pairs(lv.take(i + 1)) == prev);
                },
            }
            i += 1;
        }
        assert(lv.take(i as int) =~= lv);
        m
    }
}

impl Parse for GetpropParser {
    type Output = DeviceInfo;

    /// Fails with `Empty` exactly when the output is blank; absent properties
    /// read as empty, and an SDK level that does not parse as 0.
    fn parse(raw: &str) -> (r: ParseResult<DeviceInfo>)
        ensures
            trim(raw@).len() == 0 ==> r == Err::<DeviceInfo, ParseError>(ParseError::Empty),
            trim(raw@).len() != 0 ==> (r matches Ok(d) && is_device_of(d, raw@)),
    {
        let chars = chars_of(raw);
        let t = trim_vec(&chars);
        if t.len() == 0 {
            return Err(ParseError::Empty);
        }
        let m = GetpropParser::to_map(raw);
        let sdk_key = chars_of("ro.build.version.sdk");
        let sdk = match m.get_chars(&sdk_key) {
            Some(v) => match parse_u32_vec(v) {
                Some(n) => n,
                None => 0,
            },
            None => 0,
        };
        let abi_key = chars_of("ro.product.cpu.abi");
        let abi = match m.get_chars(&abi_key) {
            Some(v) if v.len() > 0 => string_of(v.as_slice()),
            _ => {
                let list_key = chars_of("ro.product.cpu.abilist");
                match m.get_chars(&list_key) {
                    Some(v) => {
                        let first = first_listed_vec(v);
                        string_of(first.as_slice())
                    },
                    None => {
                        let empty: Vec<char> = Vec::new();
                        assert(first_listed(empty@) =~= Seq::<char>::empty());
                        String::new()
                    },
                }
            },
        };
        Ok(
            DeviceInfo {
                model: m.get_or_empty("ro.product.model"),
                manufacturer: m.get_or_empty("ro.product.manufacturer"),
                brand: m.get_or_empty("ro.product.brand"),
                android_release: m.get_or_empty("ro.build.version.release"),
                sdk,
                fingerprint: m.get_or_empty("ro.build.fingerprint"),
                abi,
                serial: m.get_or_empty("ro.serialno"),
            },
        )
    }
}

} // verus!
