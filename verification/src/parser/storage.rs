//! Parser for `adb shell df` output.
//!
//! Standard six-column `df` layout:
//! `Filesystem  1K-blocks  Used  Available  Use%  Mounted on`. The header
//! line is skipped; any data line that doesn't split into at least 6
//! whitespace-separated fields is skipped too rather than failing the whole
//! parse, since some Android `df` builds emit extra banner lines.
//!
//! Toybox's `df` (the one on most Android builds) defaults to human-readable
//! sizes like `1.9G` or `84K` rather than raw 1K-blocks, unlike GNU `df`. Size
//! columns are parsed leniently to handle either form. A human-readable size
//! is a decimal number scaled by its unit and rounded down, computed exactly
//! in integers.

use vstd::prelude::*;

use crate::parser::decimal::{scaled_decimal, scaled_decimal_vec};
use crate::parser::model::{StorageEntry, StorageEntryView};
use crate::parser::{Parse, ParseResult};
use crate::text::{
    copy_range, lines, lines_of, parse_u64, parse_u64_vec, parse_u8, parse_u8_vec, string_of,
    tokens, tokens_vec, trim, trim_vec, views,
};

verus! {

/// Parses `df` into one [`StorageEntry`] per mounted filesystem row.
pub struct StorageParser;

/// Kilobytes per unit of a `K`/`M`/`G`/`T` suffix (either case).
pub open spec fn unit_multiplier(c: char) -> Option<nat> {
    if c == 'K' || c == 'k' {
        Some(1)
    } else if c == 'M' || c == 'm' {
        Some(1024)
    } else if c == 'G' || c == 'g' {
        Some(1024 * 1024)
    } else if c == 'T' || c == 't' {
        Some(1024 * 1024 * 1024)
    } else {
        None
    }
}

/// A `df` size column in kilobytes: a plain `u64` is taken as it is,
/// otherwise a decimal with a unit suffix is scaled; anything else is 0.
pub open spec fn size_kb_of(s: Seq<char>) -> u64 {
    let t = trim(s);
    match parse_u64(t) {
        Some(n) => n,
        None => if t.len() == 0 {
            0
        } else {
            match unit_multiplier(t.last()) {
                Some(m) => scaled_decimal(trim(t.drop_last()), m),
                None => 0,
            }
        },
    }
}

/// `str::trim_end_matches('%')`.
pub open spec fn trim_end_pct(s: Seq<char>) -> Seq<char>
    decreases s.len(),
{
    if s.len() > 0 && s.last() == '%' {
        trim_end_pct(s.drop_last())
    } else {
        s
    }
}

/// The words joined with single spaces.
pub open spec fn join_space(ws: Seq<Seq<char>>) -> Seq<char>
    decreases ws.len(),
{
    if ws.len() == 0 {
        seq![]
    } else if ws.len() == 1 {
        ws[0]
    } else {
        join_space(ws.drop_last()) + seq![' '] + ws.last()
    }
}

/// The entry of one data line, if it has at least six columns.
pub open spec fn row_of(line: Seq<char>) -> Option<StorageEntryView> {
    let cols = tokens(line);
    if cols.len() < 6 {
        None
    } else {
        Some(
            StorageEntryView {
                filesystem: cols[0],
                size_kb: size_kb_of(cols[1]),
                used_kb: size_kb_of(cols[2]),
                available_kb: size_kb_of(cols[3]),
                use_percent: match parse_u8(trim_end_pct(cols[4])) {
                    Some(p) => p,
                    None => 0,
                },
                mounted_on: join_space(cols.skip(5)),
            },
        )
    }
}

/// The entries of the given data lines, in order.
pub open spec fn rows_of(ls: Seq<Seq<char>>) -> Seq<StorageEntryView>
    decreases ls.len(),
{
    if ls.len() == 0 {
        seq![]
    } else {
        rows_of(ls.drop_last()) + match row_of(ls.last()) {
            Some(e) => seq![e],
            None => seq![],
        }
    }
}

/// The lines after the first (the header).
pub open spec fn after_header(ls: Seq<Seq<char>>) -> Seq<Seq<char>> {
    if ls.len() == 0 {
        ls
    } else {
        ls.skip(1)
    }
}

pub open spec fn entry_views(es: Seq<StorageEntry>) -> Seq<StorageEntryView> {
    es.map_values(|e: StorageEntry| e@)
}

/// Parses one `df` size column into kilobytes: either a bare number (already
/// in 1K-blocks) or a human-readable size with a K/M/G/T suffix.
pub fn parse_size_kb(s: &Vec<char>) -> (r: u64)
    ensures
        r == size_kb_of(s@),
{
    let t = trim_vec(s);
    if let Some(n) = parse_u64_vec(&t) {
        return n;
    }
    if t.len() == 0 {
        return 0;
    }
    let last = t[t.len() - 1];
    let m: u64 = if last == 'K' || last == 'k' {
        1
    } else if last == 'M' || last == 'm' {
        1024
    } else if last == 'G' || last == 'g' {
        1024 * 1024
    } else if last == 'T' || last == 't' {
        1024 * 1024 * 1024
    } else {
        return 0;
    };
    let head = copy_range(&t, 0, t.len() - 1);
    assert(head@ =~= t@.drop_last());
    let num = trim_vec(&head);
    scaled_decimal_vec(&num, m)
}

/// `str::trim_end_matches('%')`.
fn trim_end_pct_vec(v: &Vec<char>) -> (r: Vec<char>)
    ensures
        r@ == trim_end_pct(v@),
{
    let mut n = v.len();
    assert(v@.take(n as int) =~= v@);
    while n > 0 && v[n - 1] == '%'
        invariant
            n <= v.len(),
            trim_end_pct(v@.take(n as int)) == trim_end_pct(v@),
        decreases n,
    {
        assert(v@.take(n as int).drop_last() =~= v@.take(n - 1));
        n -= 1;
    }
    assert(v@.subrange(0, n as int) =~= v@.take(n as int));
    copy_range(v, 0, n)
}

/// The words `ws[from..]` joined with single spaces.
fn join_words(ws: &Vec<Vec<char>>, from: usize) -> (r: Vec<char>)
    requires
        from <= ws.len(),
    ensures
        r@ == join_space(views(ws@).skip(from as int)),
{
    let ghost all = views(ws@).skip(from as int);
    let mut out: Vec<char> = Vec::new();
    let mut j = from;
    assert(all.take(0) =~= Seq::<Seq<char>>::empty());
    while j < ws.len()
        invariant
            from <= j <= ws.len(),
            all == views(ws@).skip(from as int),
            out@ == join_space(all.take(j - from)),
        decreases ws.len() - j,
    {
        let w = &ws[j];
        let mut piece = copy_range(w, 0, w.len());
        assert(piece@ =~= w@);
        assert(all.take(j - from + 1).drop_last() =~= all.take(j - from));
        assert(all.take(j - from + 1).last() == w@);
        if j > from {
            out.push(' ');
        } else {
            assert(all.take(1)[0] == w@);
            assert(out@ + piece@ =~= piece@);
        }
        out.append(&mut piece);
        j += 1;
    }
    assert(all.take(j - from) =~= all);
    out
}

/// The entry of one data line, if it has at least six columns.
fn parse_row(line: &Vec<char>) -> (r: Option<StorageEntry>)
    ensures
        match r {
            Some(e) => row_of(line@) == Some(e@),
            None => row_of(line@) is None,
        },
{
    let cols = tokens_vec(line);
    if cols.len() < 6 {
        return None;
    }
    let ghost cv = views(cols@);
    assert(cv[0] == cols@[0]@ && cv[1] == cols@[1]@ && cv[2] == cols@[2]@);
    assert(cv[3] == cols@[3]@ && cv[4] == cols@[4]@);
    let pct = trim_end_pct_vec(&cols[4]);
    let use_percent = match parse_u8_vec(&pct) {
        Some(p) => p,
        None => 0,
    };
    Some(
        StorageEntry {
            filesystem: string_of(cols[0].as_slice()),
            size_kb: parse_size_kb(&cols[1]),
            used_kb: parse_size_kb(&cols[2]),
            available_kb: parse_size_kb(&cols[3]),
            use_percent,
            mounted_on: string_of(join_words(&cols, 5).as_slice()),
        },
    )
}

impl Parse for StorageParser {
    type Output = Vec<StorageEntry>;

    /// Always succeeds: the header line is skipped, then each line with at
    /// least six columns gives one entry, in order.
    fn parse(raw: &str) -> (r: ParseResult<Vec<StorageEntry>>)
        ensures
            r matches Ok(es) && entry_views(es@) == rows_of(after_header(lines(raw@))),
    {
        let ls = lines_of(raw);
        let ghost lv = views(ls@);
        let mut out: Vec<StorageEntry> = Vec::new();
        if ls.len() == 0 {
            assert(entry_views(out@) =~= Seq::<StorageEntryView>::empty());
            return Ok(out);
        }
        let mut i: usize = 1;
        assert(lv.skip(1).take(0) =~= Seq::<Seq<char>>::empty());
        assert(entry_views(out@) =~= Seq::<StorageEntryView>::empty());
        while i < ls.len()
            invariant
                1 <= i <= ls.len(),
                lv == views(ls@),
                lv == lines(raw@),
                entry_views(out@) == rows_of(lv.skip(1).take(i - 1)),
            decreases ls.len() - i,
        {
            let ghost before = out@;
            assert(lv.skip(1).take(i as int).drop_last() =~= lv.skip(1).take(i - 1));
            assert(lv.skip(1).take(i as int).last() == ls@[i as int]@);
            match parse_row(&ls[i]) {
                Some(e) => {
                    out.push(e);
                    assert(entry_views(out@) =~= entry_views(before) + seq![e@]);
                },
                None => {
                    assert(entry_views(out@) =~= entry_views(before) + Seq::<StorageEntryView>::empty());
                },
            }
            i += 1;
        }
        assert(lv.skip(1).take(i - 1) =~= lv.skip(1));
        Ok(out)
    }
}

} // verus!
