//! Parser for `adb shell dumpsys package <name>` output.
//!
//! Extracts version info, the requested/install/runtime permission blocks, and
//! components from the Activity/Receiver/Service/Provider Resolver Table
//! sections. Resolver tables only list components that declare an
//! `<intent-filter>`, so components invoked purely by explicit name or by
//! authority URI do not appear.
//!
//! The text is read line by line by a small state machine (`DumpState`);
//! `dump_step` states what one line does to it.

use vstd::prelude::*;
use vstd::string::StringExecFns;

use crate::order::{
    chars_lt, is_key_sorting, keys_distinct, lemma_sorted_same_elements, sort_by_key, Keyed,
};
use crate::parser::model::{
    opt_view, string_views, Component, ComponentView, PackageDetail, Permission, PermissionView, ProtectionLevel,
};
use crate::parser::{Parse, ParseResult};
use crate::text::{
    chars_of, contains, contains_str, lines_of, copy_range, eq_chars, eq_str, has_char, string_of, lines, lines_vec, parse_u32,
    parse_u32_vec, parse_u64, parse_u64_vec, split_once,
    split_once_vec, starts_with, starts_with_str, strip_prefix, strip_prefix_str, tokens,
    tokens_vec, trim, trim_vec, views, CharClass,
};

verus! {

/// Which permission block the current line belongs to.
#[derive(Clone, Copy, PartialEq, Eq, Structural)]
pub enum PermSection {
    Idle,
    Requested,
    Install,
    Runtime,
}

/// Which resolver table the current line belongs to.
#[derive(Clone, Copy, PartialEq, Eq, Structural)]
pub enum Table {
    Activity,
    Receiver,
    Service,
    Provider,
}

/// A permission as accumulated so far.
pub struct PermAcc {
    pub name: Vec<char>,
    pub granted: bool,
    pub level: ProtectionLevel,
}

/// A component as accumulated so far.
pub struct CompAcc {
    pub table: Table,
    pub name: Vec<char>,
    /// Actions in first-seen order, each once.
    pub actions: Vec<Vec<char>>,
    /// Categories in first-seen order, each once.
    pub categories: Vec<Vec<char>>,
    pub permission: Option<Vec<char>>,
}

pub struct PermAccView {
    pub name: Seq<char>,
    pub granted: bool,
    pub level: ProtectionLevel,
}

pub struct CompAccView {
    pub table: Table,
    pub name: Seq<char>,
    pub actions: Seq<Seq<char>>,
    pub categories: Seq<Seq<char>>,
    pub permission: Option<Seq<char>>,
}

pub open spec fn opt_chars(o: Option<Vec<char>>) -> Option<Seq<char>> {
    match o {
        Some(v) => Some(v@),
        None => None,
    }
}

impl View for PermAcc {
    type V = PermAccView;

    open spec fn view(&self) -> PermAccView {
        PermAccView { name: self.name@, granted: self.granted, level: self.level }
    }
}

impl View for CompAcc {
    type V = CompAccView;

    open spec fn view(&self) -> CompAccView {
        CompAccView {
            table: self.table,
            name: self.name@,
            actions: views(self.actions@),
            categories: views(self.categories@),
            permission: opt_chars(self.permission),
        }
    }
}

impl Keyed for PermAcc {
    open spec fn key(&self) -> Seq<char> {
        self.name@
    }

    fn key_chars(&self) -> (r: &Vec<char>) {
        &self.name
    }
}

impl Keyed for CompAcc {
    open spec fn key(&self) -> Seq<char> {
        self.name@
    }

    fn key_chars(&self) -> (r: &Vec<char>) {
        &self.name
    }
}

/// The parser state after some lines.
pub struct DumpState {
    pub version_name: Vec<char>,
    pub version_code: u64,
    pub min_sdk: u32,
    pub target_sdk: u32,
    pub perms: Vec<PermAcc>,
    pub section: PermSection,
    pub table: Option<Table>,
    pub current: Option<(Table, Vec<char>)>,
    pub comps: Vec<CompAcc>,
}

pub struct DumpView {
    pub version_name: Seq<char>,
    pub version_code: u64,
    pub min_sdk: u32,
    pub target_sdk: u32,
    /// Permissions in first-seen order, one per name. A sequence with one
    /// entry per name stands in for a map keyed by name, whose string keys
    /// would give the verifier nothing to reason with; the output sorts
    /// them anyway.
    pub perms: Seq<PermAccView>,
    pub section: PermSection,
    pub table: Option<Table>,
    pub current: Option<(Table, Seq<char>)>,
    /// Components in first-seen order, one per table and name: a sequence
    /// kept free of repeats (see `comps_distinct`) in place of a map keyed by
    /// table and name, for the same reason as the permissions.
    pub comps: Seq<CompAccView>,
}

pub open spec fn perm_views(s: Seq<PermAcc>) -> Seq<PermAccView> {
    s.map_values(|p: PermAcc| p@)
}

pub open spec fn comp_views(s: Seq<CompAcc>) -> Seq<CompAccView> {
    s.map_values(|c: CompAcc| c@)
}

pub open spec fn key_view(o: Option<(Table, Vec<char>)>) -> Option<(Table, Seq<char>)> {
    match o {
        Some((t, n)) => Some((t, n@)),
        None => None,
    }
}

impl View for DumpState {
    type V = DumpView;

    open spec fn view(&self) -> DumpView {
        DumpView {
            version_name: self.version_name@,
            version_code: self.version_code,
            min_sdk: self.min_sdk,
            target_sdk: self.target_sdk,
            perms: perm_views(self.perms@),
            section: self.section,
            table: self.table,
            current: key_view(self.current),
            comps: comp_views(self.comps@),
        }
    }
}

// ---------------------------------------------------------------------------
// What one line does
// ---------------------------------------------------------------------------

/// Index of the permission named `n`, or -1.
pub open spec fn perm_pos(ps: Seq<PermAccView>, n: Seq<char>) -> int
    decreases ps.len(),
{
    if ps.len() == 0 {
        -1
    } else if ps[0].name == n {
        0
    } else {
        let k = perm_pos(ps.drop_first(), n);
        if k < 0 {
            -1
        } else {
            k + 1
        }
    }
}

/// Index of the component of table `t` named `n`, or -1.
pub open spec fn comp_pos(cs: Seq<CompAccView>, t: Table, n: Seq<char>) -> int
    decreases cs.len(),
{
    if cs.len() == 0 {
        -1
    } else if cs[0].table == t && cs[0].name == n {
        0
    } else {
        let k = comp_pos(cs.drop_first(), t, n);
        if k < 0 {
            -1
        } else {
            k + 1
        }
    }
}

/// Record a permission unless one of that name is already known.
pub open spec fn perm_or_insert(ps: Seq<PermAccView>, p: PermAccView) -> Seq<PermAccView> {
    if perm_pos(ps, p.name) < 0 {
        ps.push(p)
    } else {
        ps
    }
}

/// Record a permission, replacing one of the same name.
pub open spec fn perm_insert(ps: Seq<PermAccView>, p: PermAccView) -> Seq<PermAccView> {
    let i = perm_pos(ps, p.name);
    if i < 0 {
        ps.push(p)
    } else {
        ps.update(i, p)
    }
}

pub open spec fn new_comp(t: Table, n: Seq<char>) -> CompAccView {
    CompAccView { table: t, name: n, actions: seq![], categories: seq![], permission: None }
}

/// A component line: the entry exists afterwards, with the permission if one was listed.
pub open spec fn comp_touch(
    cs: Seq<CompAccView>,
    t: Table,
    n: Seq<char>,
    perm: Option<Seq<char>>,
) -> Seq<CompAccView> {
    let i = comp_pos(cs, t, n);
    if i < 0 {
        cs.push(CompAccView { permission: perm, ..new_comp(t, n) })
    } else if perm is Some {
        cs.update(i, CompAccView { permission: perm, ..cs[i] })
    } else {
        cs
    }
}

/// Add `x` at the end unless it is already there.
pub open spec fn add_once(s: Seq<Seq<char>>, x: Seq<char>) -> Seq<Seq<char>> {
    if s.contains(x) {
        s
    } else {
        s.push(x)
    }
}

pub open spec fn comp_add_action(
    cs: Seq<CompAccView>,
    t: Table,
    n: Seq<char>,
    a: Seq<char>,
) -> Seq<CompAccView> {
    let i = comp_pos(cs, t, n);
    if i < 0 {
        cs.push(CompAccView { actions: seq![a], ..new_comp(t, n) })
    } else {
        cs.update(i, CompAccView { actions: add_once(cs[i].actions, a), ..cs[i] })
    }
}

pub open spec fn comp_add_category(
    cs: Seq<CompAccView>,
    t: Table,
    n: Seq<char>,
    c: Seq<char>,
) -> Seq<CompAccView> {
    let i = comp_pos(cs, t, n);
    if i < 0 {
        cs.push(CompAccView { categories: seq![c], ..new_comp(t, n) })
    } else {
        cs.update(i, CompAccView { categories: add_once(cs[i].categories, c), ..cs[i] })
    }
}

/// A bare permission name line: non-empty, no `:`, `=` or space, and a `.`.
pub open spec fn permission_name(line: Seq<char>) -> Option<Seq<char>> {
    if line.len() == 0 || line.contains(':') || line.contains('=') || line.contains(' ') {
        None
    } else if !line.contains('.') {
        None
    } else {
        Some(line)
    }
}

/// A `<name>: ... granted=<bool> ...` line.
pub open spec fn permission_grant(line: Seq<char>) -> Option<(Seq<char>, bool)> {
    match split_once(line, CharClass::Is(':')) {
        Some((a, rest)) => {
            let name = trim(a);
            if name.len() == 0 || name.contains(' ') || !name.contains('.') {
                None
            } else {
                Some((name, contains(rest, "granted=true"@)))
            }
        },
        None => None,
    }
}

/// Index of the first token equal to `w`, or -1.
pub open spec fn token_pos(toks: Seq<Seq<char>>, w: Seq<char>) -> int
    decreases toks.len(),
{
    if toks.len() == 0 {
        -1
    } else if toks[0] == w {
        0
    } else {
        let k = token_pos(toks.drop_first(), w);
        if k < 0 {
            -1
        } else {
            k + 1
        }
    }
}

/// Index of the first token holding a `/`, or -1.
pub open spec fn slash_pos(toks: Seq<Seq<char>>) -> int
    decreases toks.len(),
{
    if toks.len() == 0 {
        -1
    } else if toks[0].contains('/') {
        0
    } else {
        let k = slash_pos(toks.drop_first());
        if k < 0 {
            -1
        } else {
            k + 1
        }
    }
}

/// A resolver-table component line such as
/// `8d716df com.example.app/.BootReceiver filter c06df2c permission android.permission.X`:
/// the name after the first `/` (or, when nothing follows the `/`, the next
/// token) and the token after `permission`, if any. A `filter` token must
/// follow the one with the `/`.
pub open spec fn component_line(line: Seq<char>) -> Option<(Seq<char>, Option<Seq<char>>)> {
    let toks = tokens(line);
    let s = slash_pos(toks);
    let f = token_pos(toks, "filter"@);
    if s < 0 || f < 0 || f <= s {
        None
    } else {
        let after = match split_once(toks[s], CharClass::Is('/')) {
            Some((_, b)) => b,
            None => seq![],
        };
        let p = token_pos(toks, "permission"@);
        let permission = if p >= 0 && p + 1 < toks.len() {
            Some(toks[p + 1])
        } else {
            None
        };
        if after.len() == 0 {
            if s + 1 < toks.len() {
                Some((toks[s + 1], permission))
            } else {
                None
            }
        } else {
            Some((after, permission))
        }
    }
}

/// The quoted value of a line like `Action: "android.intent.action.MAIN"`.
pub open spec fn quoted_value(line: Seq<char>, prefix: Seq<char>) -> Option<Seq<char>> {
    match strip_prefix(line, prefix) {
        Some(r) => {
            let rest = trim(r);
            if rest.len() >= 2 && rest[0] == '"' && rest.last() == '"' {
                Some(rest.subrange(1, rest.len() - 1))
            } else {
                None
            }
        },
        None => None,
    }
}

/// A header that ends the resolver-table region.
pub open spec fn ends_tables(t: Seq<char>) -> bool {
    ||| starts_with(t, "Domain verification status:"@)
    ||| starts_with(t, "Permissions:"@)
    ||| starts_with(t, "Key Set Manager:"@)
    ||| starts_with(t, "Packages:"@)
    ||| starts_with(t, "Queries:"@)
    ||| starts_with(t, "Dexopt state:"@)
    ||| starts_with(t, "Compiler stats:"@)
    ||| starts_with(t, "Historical install Logging info"@)
    ||| starts_with(t, "HeimdAllFS state:"@)
}

/// `strip_prefix` with the first of two prefixes that matches.
pub open spec fn strip_either(tok: Seq<char>, a: Seq<char>, b: Seq<char>) -> Option<Seq<char>> {
    match strip_prefix(tok, a) {
        Some(r) => Some(r),
        None => strip_prefix(tok, b),
    }
}

/// One token of a `versionCode=... minSdk=... targetSdk=...` line.
pub open spec fn version_token(st: DumpView, tok: Seq<char>) -> DumpView {
    match strip_prefix(tok, "versionCode="@) {
        Some(v) => DumpView {
            version_code: match parse_u64(v) {
                Some(n) => n,
                None => 0,
            },
            ..st
        },
        None => match strip_either(tok, "minSdkVersion="@, "minSdk="@) {
            Some(v) => DumpView {
                min_sdk: match parse_u32(v) {
                    Some(n) => n,
                    None => 0,
                },
                ..st
            },
            None => match strip_either(tok, "targetSdkVersion="@, "targetSdk="@) {
                Some(v) => DumpView {
                    target_sdk: match parse_u32(v) {
                        Some(n) => n,
                        None => 0,
                    },
                    ..st
                },
                None => st,
            },
        },
    }
}

pub open spec fn version_tokens(st: DumpView, toks: Seq<Seq<char>>) -> DumpView
    decreases toks.len(),
{
    if toks.len() == 0 {
        st
    } else {
        version_tokens(version_token(st, toks[0]), toks.drop_first())
    }
}

/// A line inside a resolver table.
pub open spec fn table_line(st: DumpView, tb: Table, t: Seq<char>) -> DumpView {
    match component_line(t) {
        Some((name, perm)) => DumpView {
            comps: comp_touch(st.comps, tb, name, perm),
            current: Some((tb, name)),
            ..st
        },
        None => match quoted_value(t, "Action:"@) {
            Some(a) => match st.current {
                Some((ct, cn)) => DumpView { comps: comp_add_action(st.comps, ct, cn, a), ..st },
                None => st,
            },
            None => match quoted_value(t, "Category:"@) {
                Some(c) => match st.current {
                    Some((ct, cn)) => DumpView {
                        comps: comp_add_category(st.comps, ct, cn, c),
                        ..st
                    },
                    None => st,
                },
                None => st,
            },
        },
    }
}

/// A line outside the resolver tables: permission blocks.
pub open spec fn perm_line(st: DumpView, t: Seq<char>) -> DumpView {
    if t == "requested permissions:"@ {
        DumpView { section: PermSection::Requested, ..st }
    } else if t == "install permissions:"@ {
        DumpView { section: PermSection::Install, ..st }
    } else if t == "runtime permissions:"@ {
        DumpView { section: PermSection::Runtime, ..st }
    } else {
        match st.section {
            PermSection::Requested => match permission_name(t) {
                Some(n) => DumpView {
                    perms: perm_or_insert(
                        st.perms,
                        PermAccView { name: n, granted: false, level: ProtectionLevel::Unknown },
                    ),
                    ..st
                },
                None => DumpView { section: PermSection::Idle, ..st },
            },
            PermSection::Install => match permission_grant(t) {
                Some((n, g)) => DumpView {
                    perms: perm_insert(
                        st.perms,
                        PermAccView { name: n, granted: g, level: ProtectionLevel::Normal },
                    ),
                    ..st
                },
                None => DumpView { section: PermSection::Idle, ..st },
            },
            PermSection::Runtime => match permission_grant(t) {
                Some((n, g)) => DumpView {
                    perms: perm_insert(
                        st.perms,
                        PermAccView { name: n, granted: g, level: ProtectionLevel::Dangerous },
                    ),
                    ..st
                },
                None => DumpView { section: PermSection::Idle, ..st },
            },
            PermSection::Idle => st,
        }
    }
}

/// What one line of the dump does to the state.
pub open spec fn dump_step(st: DumpView, line: Seq<char>) -> DumpView {
    let t = trim(line);
    match strip_prefix(t, "versionName="@) {
        Some(rest) => DumpView { version_name: rest, ..st },
        None => if starts_with(t, "versionCode="@) {
            version_tokens(st, tokens(t))
        } else if contains(t, "Activity Resolver Table:"@) {
            DumpView { table: Some(Table::Activity), current: None, ..st }
        } else if contains(t, "Receiver Resolver Table:"@) {
            DumpView { table: Some(Table::Receiver), current: None, ..st }
        } else if contains(t, "Service Resolver Table:"@) {
            DumpView { table: Some(Table::Service), current: None, ..st }
        } else if contains(t, "Provider Resolver Table:"@) {
            DumpView { table: Some(Table::Provider), current: None, ..st }
        } else {
            let st1 = if ends_tables(t) {
                DumpView { table: None, current: None, ..st }
            } else {
                st
            };
            match st1.table {
                Some(tb) => table_line(st1, tb, t),
                None => perm_line(st1, t),
            }
        },
    }
}

pub open spec fn dump_fold(st: DumpView, ls: Seq<Seq<char>>) -> DumpView
    decreases ls.len(),
{
    if ls.len() == 0 {
        st
    } else {
        dump_fold(dump_step(st, ls[0]), ls.drop_first())
    }
}

pub open spec fn initial_dump() -> DumpView {
    DumpView {
        version_name: seq![],
        version_code: 0,
        min_sdk: 0,
        target_sdk: 0,
        perms: seq![],
        section: PermSection::Idle,
        table: None,
        current: None,
        comps: seq![],
    }
}

/// The text with every U+FFFD replacement character removed.
pub open spec fn without_replacement(s: Seq<char>) -> Seq<char>
    decreases s.len(),
{
    if s.len() == 0 {
        s
    } else if s.last() == '\u{FFFD}' {
        without_replacement(s.drop_last())
    } else {
        without_replacement(s.drop_last()).push(s.last())
    }
}

/// The state after reading the whole dump.
pub open spec fn dump_of(raw: Seq<char>) -> DumpView {
    dump_fold(initial_dump(), lines(without_replacement(raw)))
}

// ---------------------------------------------------------------------------
// What the parser returns
// ---------------------------------------------------------------------------

/// `r` holds the elements of `s`, each once, in increasing order.
pub open spec fn is_sorted_set(r: Seq<Seq<char>>, s: Seq<Seq<char>>) -> bool {
    &&& forall|i: int, j: int| 0 <= i < j < r.len() ==> chars_lt(r[i], r[j])
    &&& forall|x: Seq<char>| r.contains(x) <==> s.contains(x)
}

pub open spec fn perm_out(p: PermAccView) -> PermissionView {
    PermissionView { name: p.name, granted: p.granted, protection_level: p.level }
}

/// Permissions: one per accumulated name, sorted by name.
pub open spec fn permissions_match(out: Seq<PermissionView>, acc: Seq<PermAccView>) -> bool {
    &&& forall|i: int, j: int| 0 <= i < j < out.len() ==> chars_lt(out[i].name, out[j].name)
    &&& forall|x: PermissionView| out.contains(x) <==> acc.map_values(|p: PermAccView| perm_out(p)).contains(x)
}

/// `c` is what component accumulator `a` becomes: its actions sorted.
pub open spec fn component_from(c: ComponentView, a: CompAccView) -> bool {
    &&& c.name == a.name
    &&& c.permission == a.permission
    &&& is_sorted_set(c.intent_actions, a.actions)
}

/// `c` is what some accumulated component of table `t` becomes.
pub open spec fn from_some(c: ComponentView, acc: Seq<CompAccView>, t: Table) -> bool {
    exists|k: int| 0 <= k < acc.len() && acc[k].table == t && component_from(c, acc[k])
}

/// Some entry of `out` is named `n`.
pub open spec fn has_name(out: Seq<ComponentView>, n: Seq<char>) -> bool {
    exists|i: int| 0 <= i < out.len() && out[i].name == n
}

/// The components of table `t`: one per accumulated name, sorted by name.
pub open spec fn components_match(out: Seq<ComponentView>, acc: Seq<CompAccView>, t: Table) -> bool {
    &&& forall|i: int, j: int| 0 <= i < j < out.len() ==> chars_lt(out[i].name, out[j].name)
    &&& forall|i: int| 0 <= i < out.len() ==> #[trigger] from_some(out[i], acc, t)
    &&& forall|k: int|
        0 <= k < acc.len() && acc[k].table == t ==> #[trigger] has_name(out, acc[k].name)
}

/// The component of table `t` named `n` has the MAIN action and LAUNCHER category.
pub open spec fn is_launcher(acc: Seq<CompAccView>, n: Seq<char>) -> bool {
    let k = comp_pos(acc, Table::Activity, n);
    &&& k >= 0
    &&& acc[k].actions.contains("android.intent.action.MAIN"@)
    &&& acc[k].categories.contains("android.intent.category.LAUNCHER"@)
}

/// The launcher activity: the first activity, in name order, that is a launcher.
pub open spec fn launcher_match(
    launcher: Option<Seq<char>>,
    activities: Seq<ComponentView>,
    acc: Seq<CompAccView>,
) -> bool {
    match launcher {
        Some(n) => exists|i: int|
            0 <= i < activities.len() && activities[i].name == n && is_launcher(acc, n) && forall|
                j: int,
            |
                0 <= j < i ==> !is_launcher(acc, #[trigger] activities[j].name),
        None => forall|i: int|
            0 <= i < activities.len() ==> !is_launcher(acc, #[trigger] activities[i].name),
    }
}

pub open spec fn comp_out_views(s: Seq<Component>) -> Seq<ComponentView> {
    s.map_values(|c: Component| c@)
}

pub open spec fn perm_out_views(s: Seq<Permission>) -> Seq<PermissionView> {
    s.map_values(|p: Permission| p@)
}

/// `d` is what parsing dump `raw` for package `pkg` gives.
pub open spec fn is_detail_of(d: PackageDetail, pkg: Seq<char>, raw: Seq<char>) -> bool {
    let st = dump_of(raw);
    &&& d.name@ == pkg
    &&& d.raw@ == raw
    &&& d.version_name@ == st.version_name
    &&& d.version_code == st.version_code
    &&& d.min_sdk == st.min_sdk
    &&& d.target_sdk == st.target_sdk
    &&& permissions_match(perm_out_views(d.permissions@), st.perms)
    &&& components_match(comp_out_views(d.activities@), st.comps, Table::Activity)
    &&& components_match(comp_out_views(d.services@), st.comps, Table::Service)
    &&& components_match(comp_out_views(d.receivers@), st.comps, Table::Receiver)
    &&& components_match(comp_out_views(d.providers@), st.comps, Table::Provider)
    &&& launcher_match(opt_view(d.launcher_activity), comp_out_views(d.activities@), st.comps)
}

/// The package name in the first `Package [<name>]` header line, or empty.
pub open spec fn header_name(ls: Seq<Seq<char>>) -> Seq<char>
    decreases ls.len(),
{
    if ls.len() == 0 {
        seq![]
    } else {
        match strip_prefix(trim(ls[0]), "Package ["@) {
            Some(rest) => match split_once(rest, CharClass::Is(']')) {
                Some((name, _)) => name,
                None => header_name(ls.drop_first()),
            },
            None => header_name(ls.drop_first()),
        }
    }
}

// ---------------------------------------------------------------------------
// Lemmas
// ---------------------------------------------------------------------------

pub proof fn lemma_perm_pos(ps: Seq<PermAccView>, n: Seq<char>)
    ensures
        -1 <= perm_pos(ps, n) < ps.len(),
        perm_pos(ps, n) >= 0 ==> ps[perm_pos(ps, n)].name == n,
        forall|j: int| 0 <= j < ps.len() && (perm_pos(ps, n) < 0 || j < perm_pos(ps, n)) ==> (
        #[trigger] ps[j]).name != n,
    decreases ps.len(),
{
    if ps.len() > 0 {
        lemma_perm_pos(ps.drop_first(), n);
        assert forall|j: int| 1 <= j < ps.len() implies ps[j] == ps.drop_first()[j - 1] by {}
    }
}

pub proof fn lemma_comp_pos(cs: Seq<CompAccView>, t: Table, n: Seq<char>)
    ensures
        -1 <= comp_pos(cs, t, n) < cs.len(),
        comp_pos(cs, t, n) >= 0 ==> cs[comp_pos(cs, t, n)].table == t && cs[comp_pos(
            cs,
            t,
            n,
        )].name == n,
        forall|j: int|
            0 <= j < cs.len() && (comp_pos(cs, t, n) < 0 || j < comp_pos(cs, t, n)) ==> !((
            #[trigger] cs[j]).table == t && cs[j].name == n),
    decreases cs.len(),
{
    if cs.len() > 0 {
        lemma_comp_pos(cs.drop_first(), t, n);
        assert forall|j: int| 1 <= j < cs.len() implies cs[j] == cs.drop_first()[j - 1] by {}
    }
}

pub proof fn lemma_token_pos(toks: Seq<Seq<char>>, w: Seq<char>)
    ensures
        -1 <= token_pos(toks, w) < toks.len(),
        token_pos(toks, w) >= 0 ==> toks[token_pos(toks, w)] == w,
        forall|j: int|
            0 <= j < toks.len() && (token_pos(toks, w) < 0 || j < token_pos(toks, w)) ==> #[trigger] toks[j] != w,
    decreases toks.len(),
{
    if toks.len() > 0 {
        lemma_token_pos(toks.drop_first(), w);
        assert forall|j: int| 1 <= j < toks.len() implies toks[j] == toks.drop_first()[j - 1] by {}
    }
}

pub proof fn lemma_slash_pos(toks: Seq<Seq<char>>)
    ensures
        -1 <= slash_pos(toks) < toks.len(),
        slash_pos(toks) >= 0 ==> toks[slash_pos(toks)].contains('/'),
        forall|j: int|
            0 <= j < toks.len() && (slash_pos(toks) < 0 || j < slash_pos(toks)) ==> !(
            #[trigger] toks[j]).contains('/'),
    decreases toks.len(),
{
    if toks.len() > 0 {
        lemma_slash_pos(toks.drop_first());
        assert forall|j: int| 1 <= j < toks.len() implies toks[j] == toks.drop_first()[j - 1] by {}
    }
}

/// No two entries of `s` are equal.
pub open spec fn all_distinct(s: Seq<Seq<char>>) -> bool {
    forall|i: int, j: int| 0 <= i < s.len() && 0 <= j < s.len() && i != j ==> s[i] != s[j]
}

/// Every name occurs once among the permissions.
pub open spec fn perms_wf(ps: Seq<PermAccView>) -> bool {
    forall|i: int, j: int|
        0 <= i < ps.len() && 0 <= j < ps.len() && i != j ==> ps[i].name != ps[j].name
}

/// Every (table, name) occurs once among the components, and every action
/// once in its component.
#[verifier::opaque]
pub open spec fn comps_wf(cs: Seq<CompAccView>) -> bool {
    &&& forall|i: int, j: int|
        0 <= i < cs.len() && 0 <= j < cs.len() && i != j ==> !(cs[i].table == cs[j].table
            && cs[i].name == cs[j].name)
    &&& forall|k: int| 0 <= k < cs.len() ==> all_distinct(#[trigger] cs[k].actions)
}

pub open spec fn dump_wf(st: DumpView) -> bool {
    perms_wf(st.perms) && comps_wf(st.comps)
}

pub proof fn lemma_add_once_distinct(s: Seq<Seq<char>>, x: Seq<char>)
    requires
        all_distinct(s),
    ensures
        all_distinct(add_once(s, x)),
{
    if !s.contains(x) {
        assert forall|i: int, j: int|
            0 <= i < s.len() + 1 && 0 <= j < s.len() + 1 && i != j implies s.push(x)[i] != s.push(
            x,
        )[j] by {
            if i == s.len() {
                assert(s[j] != x);
            } else if j == s.len() {
                assert(s[i] != x);
            }
        }
    }
}

pub proof fn lemma_perm_ops_wf(ps: Seq<PermAccView>, p: PermAccView)
    requires
        perms_wf(ps),
    ensures
        perms_wf(perm_or_insert(ps, p)),
        perms_wf(perm_insert(ps, p)),
{
    lemma_perm_pos(ps, p.name);
}

pub proof fn lemma_comp_ops_wf(
    cs: Seq<CompAccView>,
    t: Table,
    n: Seq<char>,
    perm: Option<Seq<char>>,
    a: Seq<char>,
)
    requires
        comps_wf(cs),
    ensures
        comps_wf(comp_touch(cs, t, n, perm)),
        comps_wf(comp_add_action(cs, t, n, a)),
        comps_wf(comp_add_category(cs, t, n, a)),
{
    reveal(comps_wf);
    lemma_comp_pos(cs, t, n);
    let i = comp_pos(cs, t, n);
    if i < 0 {
        assert(all_distinct(seq![a]));
        assert(all_distinct(Seq::<Seq<char>>::empty()));
    } else {
        lemma_add_once_distinct(cs[i].actions, a);
        let r = comp_add_action(cs, t, n, a);
        assert forall|k: int| 0 <= k < r.len() implies all_distinct(#[trigger] r[k].actions) by {
            if k != i {
                assert(r[k] == cs[k]);
            }
        }
        let r2 = comp_touch(cs, t, n, perm);
        assert forall|k: int| 0 <= k < r2.len() implies all_distinct(#[trigger] r2[k].actions) by {
            if k != i {
                assert(r2[k] == cs[k]);
            }
        }
        let r3 = comp_add_category(cs, t, n, a);
        assert forall|k: int| 0 <= k < r3.len() implies all_distinct(#[trigger] r3[k].actions) by {
            if k != i {
                assert(r3[k] == cs[k]);
            }
        }
    }
}

// ---------------------------------------------------------------------------
// Executable state machine
// ---------------------------------------------------------------------------

fn copy_chars(v: &Vec<char>) -> (r: Vec<char>)
    ensures
        r@ == v@,
{
    let r = copy_range(v, 0, v.len());
    assert(r@ =~= v@);
    r
}

fn find_perm(ps: &Vec<PermAcc>, n: &Vec<char>) -> (r: Option<usize>)
    ensures
        match r {
            Some(i) => perm_pos(perm_views(ps@), n@) == i as int,
            None => perm_pos(perm_views(ps@), n@) < 0,
        },
{
    let ghost pv = perm_views(ps@);
    proof {
        lemma_perm_pos(pv, n@);
    }
    let mut i: usize = 0;
    while i < ps.len()
        invariant
            i <= ps.len(),
            pv == perm_views(ps@),
            forall|j: int| 0 <= j < i ==> (#[trigger] ps@[j]).name@ != n@,
        decreases ps.len() - i,
    {
        if eq_chars(&ps[i].name, n) {
            proof {
                lemma_perm_pos(pv, n@);
                let k = perm_pos(pv, n@);
                assert(pv[i as int] == ps@[i as int]@);
                assert(pv[i as int].name == n@);
                if k >= 0 && k < i {
                    assert(pv[k] == ps@[k]@);
                    assert(ps@[k].name@ != n@);
                } else if k < 0 || k > i {
                    assert(pv[i as int].name != n@);
                }
            }
            return Some(i);
        }
        i += 1;
    }
    proof {
        let k = perm_pos(pv, n@);
        if k >= 0 {
            assert(pv[k] == ps@[k]@);
        }
    }
    None
}

fn find_comp(cs: &Vec<CompAcc>, t: Table, n: &Vec<char>) -> (r: Option<usize>)
    ensures
        match r {
            Some(i) => comp_pos(comp_views(cs@), t, n@) == i as int,
            None => comp_pos(comp_views(cs@), t, n@) < 0,
        },
{
    let ghost cv = comp_views(cs@);
    proof {
        lemma_comp_pos(cv, t, n@);
    }
    let mut i: usize = 0;
    while i < cs.len()
        invariant
            i <= cs.len(),
            cv == comp_views(cs@),
            forall|j: int|
                0 <= j < i ==> !((#[trigger] cs@[j]).table == t && cs@[j].name@ == n@),
        decreases cs.len() - i,
    {
        if cs[i].table == t && eq_chars(&cs[i].name, n) {
            proof {
                lemma_comp_pos(cv, t, n@);
                let k = comp_pos(cv, t, n@);
                assert(cv[i as int] == cs@[i as int]@);
                assert(cv[i as int].table == t && cv[i as int].name == n@);
                if k >= 0 && k < i {
                    assert(cv[k] == cs@[k]@);
                    assert(!(cs@[k].table == t && cs@[k].name@ == n@));
                } else if k < 0 || k > i {
                    assert(!(cv[i as int].table == t && cv[i as int].name == n@));
                }
            }
            return Some(i);
        }
        i += 1;
    }
    proof {
        let k = comp_pos(cv, t, n@);
        if k >= 0 {
            assert(cv[k] == cs@[k]@);
        }
    }
    None
}

fn contains_chars(s: &Vec<Vec<char>>, x: &Vec<char>) -> (r: bool)
    ensures
        r == views(s@).contains(x@),
{
    let mut i: usize = 0;
    while i < s.len()
        invariant
            i <= s.len(),
            forall|j: int| 0 <= j < i ==> (#[trigger] s@[j])@ != x@,
        decreases s.len() - i,
    {
        if eq_chars(&s[i], x) {
            assert(views(s@)[i as int] == x@);
            return true;
        }
        i += 1;
    }
    proof {
        if views(s@).contains(x@) {
            let k = choose|k: int| 0 <= k < views(s@).len() && views(s@)[k] == x@;
            assert(s@[k]@ == x@);
        }
    }
    false
}

fn add_once_vec(s: &mut Vec<Vec<char>>, x: Vec<char>)
    ensures
        views(final(s)@) == add_once(views(old(s)@), x@),
{
    if !contains_chars(s, &x) {
        let ghost before = views(s@);
        s.push(x);
        assert(views(s@) =~= before.push(x@));
    }
}

fn new_comp_acc(t: Table, n: Vec<char>) -> (r: CompAcc)
    ensures
        r@ == new_comp(t, n@),
{
    let r = CompAcc { table: t, name: n, actions: Vec::new(), categories: Vec::new(), permission: None };
    assert(views(r.actions@) =~= Seq::<Seq<char>>::empty());
    assert(views(r.categories@) =~= Seq::<Seq<char>>::empty());
    r
}

fn comp_touch_vec(cs: &mut Vec<CompAcc>, t: Table, n: &Vec<char>, perm: Option<Vec<char>>)
    ensures
        comp_views(final(cs)@) == comp_touch(comp_views(old(cs)@), t, n@, opt_chars(perm)),
{
    let ghost before = comp_views(cs@);
    proof {
        lemma_comp_pos(before, t, n@);
    }
    match find_comp(cs, t, n) {
        None => {
            let mut c = new_comp_acc(t, copy_chars(n));
            c.permission = perm;
            cs.push(c);
            assert(comp_views(cs@) =~= before.push(c@));
        },
        Some(i) => {
            if perm.is_some() {
                let mut c = cs.remove(i);
                c.permission = perm;
                cs.insert(i, c);
                assert(comp_views(cs@) =~= before.update(i as int, c@));
            }
        },
    }
}

fn comp_add_action_vec(cs: &mut Vec<CompAcc>, t: Table, n: &Vec<char>, a: Vec<char>)
    ensures
        comp_views(final(cs)@) == comp_add_action(comp_views(old(cs)@), t, n@, a@),
{
    let ghost before = comp_views(cs@);
    proof {
        lemma_comp_pos(before, t, n@);
    }
    match find_comp(cs, t, n) {
        None => {
            let mut c = new_comp_acc(t, copy_chars(n));
            let ghost av = a@;
            c.actions.push(a);
            assert(views(c.actions@) =~= seq![av]);
            cs.push(c);
            assert(comp_views(cs@) =~= before.push(c@));
        },
        Some(i) => {
            let mut c = cs.remove(i);
            let ghost old_c = c@;
            assert(old_c == before[i as int]);
            add_once_vec(&mut c.actions, a);
            cs.insert(i, c);
            assert(comp_views(cs@) =~= before.update(i as int, c@));
        },
    }
}

fn comp_add_category_vec(cs: &mut Vec<CompAcc>, t: Table, n: &Vec<char>, a: Vec<char>)
    ensures
        comp_views(final(cs)@) == comp_add_category(comp_views(old(cs)@), t, n@, a@),
{
    let ghost before = comp_views(cs@);
    proof {
        lemma_comp_pos(before, t, n@);
    }
    match find_comp(cs, t, n) {
        None => {
            let mut c = new_comp_acc(t, copy_chars(n));
            let ghost av = a@;
            c.categories.push(a);
            assert(views(c.categories@) =~= seq![av]);
            cs.push(c);
            assert(comp_views(cs@) =~= before.push(c@));
        },
        Some(i) => {
            let mut c = cs.remove(i);
            let ghost old_c = c@;
            assert(old_c == before[i as int]);
            add_once_vec(&mut c.categories, a);
            cs.insert(i, c);
            assert(comp_views(cs@) =~= before.update(i as int, c@));
        },
    }
}

fn perm_or_insert_vec(ps: &mut Vec<PermAcc>, p: PermAcc)
    ensures
        perm_views(final(ps)@) == perm_or_insert(perm_views(old(ps)@), p@),
{
    let ghost before = perm_views(ps@);
    if find_perm(ps, &p.name).is_none() {
        let ghost pv = p@;
        ps.push(p);
        assert(perm_views(ps@) =~= before.push(pv));
    }
}

fn perm_insert_vec(ps: &mut Vec<PermAcc>, p: PermAcc)
    ensures
        perm_views(final(ps)@) == perm_insert(perm_views(old(ps)@), p@),
{
    let ghost before = perm_views(ps@);
    let ghost pv = p@;
    proof {
        lemma_perm_pos(before, p.name@);
    }
    match find_perm(ps, &p.name) {
        None => {
            ps.push(p);
            assert(perm_views(ps@) =~= before.push(pv));
        },
        Some(i) => {
            ps.set(i, p);
            assert(perm_views(ps@) =~= before.update(i as int, pv));
        },
    }
}

fn parse_permission_name(t: &Vec<char>) -> (r: Option<Vec<char>>)
    ensures
        opt_chars(r) == permission_name(t@),
{
    if t.len() == 0 || has_char(t, ':') || has_char(t, '=') || has_char(t, ' ') {
        None
    } else if !has_char(t, '.') {
        None
    } else {
        Some(copy_chars(t))
    }
}

fn parse_permission_grant(t: &Vec<char>) -> (r: Option<(Vec<char>, bool)>)
    ensures
        match r {
            Some((n, g)) => permission_grant(t@) == Some((n@, g)),
            None => permission_grant(t@) is None,
        },
{
    match split_once_vec(t, CharClass::Is(':')) {
        Some((a, rest)) => {
            let name = trim_vec(&a);
            if name.len() == 0 || has_char(&name, ' ') || !has_char(&name, '.') {
                None
            } else {
                let g = contains_str(&rest, "granted=true");
                Some((name, g))
            }
        },
        None => None,
    }
}

fn find_token(toks: &Vec<Vec<char>>, w: &str) -> (r: Option<usize>)
    ensures
        match r {
            Some(i) => token_pos(views(toks@), w@) == i as int,
            None => token_pos(views(toks@), w@) < 0,
        },
{
    let ghost tv = views(toks@);
    let mut i: usize = 0;
    while i < toks.len()
        invariant
            i <= toks.len(),
            tv == views(toks@),
            forall|j: int| 0 <= j < i ==> (#[trigger] toks@[j])@ != w@,
        decreases toks.len() - i,
    {
        if eq_str(&toks[i], w) {
            proof {
                lemma_token_pos(tv, w@);
                let k = token_pos(tv, w@);
                assert(tv[i as int] == w@);
                if k >= 0 && k < i {
                    assert(tv[k] == toks@[k]@);
                }
            }
            return Some(i);
        }
        i += 1;
    }
    proof {
        lemma_token_pos(tv, w@);
        let k = token_pos(tv, w@);
        if k >= 0 {
            assert(tv[k] == toks@[k]@);
        }
    }
    None
}

fn find_slash_token(toks: &Vec<Vec<char>>) -> (r: Option<usize>)
    ensures
        match r {
            Some(i) => slash_pos(views(toks@)) == i as int,
            None => slash_pos(views(toks@)) < 0,
        },
{
    let ghost tv = views(toks@);
    let mut i: usize = 0;
    while i < toks.len()
        invariant
            i <= toks.len(),
            tv == views(toks@),
            forall|j: int| 0 <= j < i ==> !(#[trigger] toks@[j])@.contains('/'),
        decreases toks.len() - i,
    {
        if has_char(&toks[i], '/') {
            proof {
                lemma_slash_pos(tv);
                let k = slash_pos(tv);
                assert(tv[i as int].contains('/'));
                if k >= 0 && k < i {
                    assert(tv[k] == toks@[k]@);
                }
            }
            return Some(i);
        }
        i += 1;
    }
    proof {
        lemma_slash_pos(tv);
        let k = slash_pos(tv);
        if k >= 0 {
            assert(tv[k] == toks@[k]@);
        }
    }
    None
}

fn parse_component_line(t: &Vec<char>) -> (r: Option<(Vec<char>, Option<Vec<char>>)>)
    ensures
        match r {
            Some((n, p)) => component_line(t@) == Some((n@, opt_chars(p))),
            None => component_line(t@) is None,
        },
{
    let toks = tokens_vec(t);
    let ghost tv = views(toks@);
    proof {
        lemma_slash_pos(tv);
        lemma_token_pos(tv, "filter"@);
        lemma_token_pos(tv, "permission"@);
    }
    let s = match find_slash_token(&toks) {
        Some(s) => s,
        None => return None,
    };
    let f = match find_token(&toks, "filter") {
        Some(f) => f,
        None => return None,
    };
    if f <= s {
        return None;
    }
    assert(tv[s as int] == toks@[s as int]@);
    let after = match split_once_vec(&toks[s], CharClass::Is('/')) {
        Some((_, b)) => b,
        None => Vec::new(),
    };
    let permission = match find_token(&toks, "permission") {
        Some(p) => {
            if p < toks.len() - 1 {
                assert(tv[p + 1] == toks@[p + 1]@);
                Some(copy_chars(&toks[p + 1]))
            } else {
                None
            }
        },
        None => None,
    };
    if after.len() == 0 {
        if s + 1 < toks.len() {
            assert(tv[s + 1] == toks@[s + 1]@);
            Some((copy_chars(&toks[s + 1]), permission))
        } else {
            None
        }
    } else {
        Some((after, permission))
    }
}

fn parse_quoted_value(t: &Vec<char>, prefix: &str) -> (r: Option<Vec<char>>)
    ensures
        opt_chars(r) == quoted_value(t@, prefix@),
{
    match strip_prefix_str(t, prefix) {
        Some(r) => {
            let rest = trim_vec(&r);
            if rest.len() >= 2 && rest[0] == '"' && rest[rest.len() - 1] == '"' {
                Some(copy_range(&rest, 1, rest.len() - 1))
            } else {
                None
            }
        },
        None => None,
    }
}

fn ends_tables_vec(t: &Vec<char>) -> (r: bool)
    ensures
        r == ends_tables(t@),
{
    starts_with_str(t, "Domain verification status:") || starts_with_str(t, "Permissions:")
        || starts_with_str(t, "Key Set Manager:") || starts_with_str(t, "Packages:")
        || starts_with_str(t, "Queries:") || starts_with_str(t, "Dexopt state:")
        || starts_with_str(t, "Compiler stats:") || starts_with_str(
        t,
        "Historical install Logging info",
    ) || starts_with_str(t, "HeimdAllFS state:")
}

fn strip_any(tok: &Vec<char>, a: &str, b: &str) -> (r: Option<Vec<char>>)
    ensures
        opt_chars(r) == strip_either(tok@, a@, b@),
{
    match strip_prefix_str(tok, a) {
        Some(r) => Some(r),
        None => strip_prefix_str(tok, b),
    }
}

impl DumpState {
    fn new() -> (r: DumpState)
        ensures
            r@ == initial_dump(),
            dump_wf(r@),
    {
        let r = DumpState {
            version_name: Vec::new(),
            version_code: 0,
            min_sdk: 0,
            target_sdk: 0,
            perms: Vec::new(),
            section: PermSection::Idle,
            table: None,
            current: None,
            comps: Vec::new(),
        };
        assert(perm_views(r.perms@) =~= Seq::<PermAccView>::empty());
        proof {
            reveal(comps_wf);
        }
        assert(comp_views(r.comps@) =~= Seq::<CompAccView>::empty());
        assert(r@ =~= initial_dump());
        r
    }

    fn version_token(&mut self, tok: &Vec<char>)
        ensures
            final(self)@ == version_token(old(self)@, tok@),
            final(self)@.perms == old(self)@.perms,
            final(self)@.comps == old(self)@.comps,
    {
        match strip_prefix_str(tok, "versionCode=") {
            Some(v) => {
                self.version_code = match parse_u64_vec(&v) {
                    Some(n) => n,
                    None => 0,
                };
            },
            None => match strip_any(tok, "minSdkVersion=", "minSdk=") {
                Some(v) => {
                    self.min_sdk = match parse_u32_vec(&v) {
                        Some(n) => n,
                        None => 0,
                    };
                },
                None => match strip_any(tok, "targetSdkVersion=", "targetSdk=") {
                    Some(v) => {
                        self.target_sdk = match parse_u32_vec(&v) {
                            Some(n) => n,
                            None => 0,
                        };
                    },
                    None => {},
                },
            },
        }
    }

    fn version_line(&mut self, t: &Vec<char>)
        ensures
            final(self)@ == version_tokens(old(self)@, tokens(t@)),
            final(self)@.perms == old(self)@.perms,
            final(self)@.comps == old(self)@.comps,
    {
        let toks = tokens_vec(t);
        let ghost tv = views(toks@);
        let ghost st0 = self@;
        let mut i: usize = 0;
        assert(tv.skip(0) =~= tv);
        while i < toks.len()
            invariant
                i <= toks.len(),
                tv == views(toks@),
                version_tokens(st0, tv) == version_tokens(self@, tv.skip(i as int)),
                self@.perms == st0.perms,
                self@.comps == st0.comps,
            decreases toks.len() - i,
        {
            assert(tv.skip(i as int).drop_first() =~= tv.skip(i + 1));
            assert(tv.skip(i as int)[0] == toks@[i as int]@);
            self.version_token(&toks[i]);
            i += 1;
        }
        assert(tv.skip(i as int) =~= Seq::<Seq<char>>::empty());
    }
}

impl DumpState {
    fn table_line(&mut self, tb: Table, t: &Vec<char>)
        requires
            dump_wf(old(self)@),
        ensures
            final(self)@ == table_line(old(self)@, tb, t@),
            dump_wf(final(self)@),
    {
        proof {
            lemma_comp_ops_wf(self@.comps, tb, seq![], None, seq![]);
        }
        match parse_component_line(t) {
            Some((name, perm)) => {
                proof {
                    lemma_comp_ops_wf(self@.comps, tb, name@, opt_chars(perm), seq![]);
                }
                comp_touch_vec(&mut self.comps, tb, &name, perm);
                self.current = Some((tb, name));
            },
            None => match parse_quoted_value(t, "Action:") {
                Some(a) => {
                    match &self.current {
                        Some((ct, cn)) => {
                            proof {
                                lemma_comp_ops_wf(self@.comps, *ct, cn@, None, a@);
                            }
                            comp_add_action_vec(&mut self.comps, *ct, cn, a);
                        },
                        None => {},
                    }
                },
                None => match parse_quoted_value(t, "Category:") {
                    Some(c) => {
                        match &self.current {
                            Some((ct, cn)) => {
                                proof {
                                    lemma_comp_ops_wf(self@.comps, *ct, cn@, None, c@);
                                }
                                comp_add_category_vec(&mut self.comps, *ct, cn, c);
                            },
                            None => {},
                        }
                    },
                    None => {},
                },
            },
        }
    }

    fn perm_line(&mut self, t: &Vec<char>)
        requires
            dump_wf(old(self)@),
        ensures
            final(self)@ == perm_line(old(self)@, t@),
            dump_wf(final(self)@),
    {
        if eq_str(t, "requested permissions:") {
            self.section = PermSection::Requested;
        } else if eq_str(t, "install permissions:") {
            self.section = PermSection::Install;
        } else if eq_str(t, "runtime permissions:") {
            self.section = PermSection::Runtime;
        } else {
            match self.section {
                PermSection::Requested => match parse_permission_name(t) {
                    Some(n) => {
                        let p = PermAcc { name: n, granted: false, level: ProtectionLevel::Unknown };
                        proof {
                            lemma_perm_ops_wf(self@.perms, p@);
                        }
                        perm_or_insert_vec(&mut self.perms, p);
                    },
                    None => {
                        self.section = PermSection::Idle;
                    },
                },
                PermSection::Install => match parse_permission_grant(t) {
                    Some((n, g)) => {
                        let p = PermAcc { name: n, granted: g, level: ProtectionLevel::Normal };
                        proof {
                            lemma_perm_ops_wf(self@.perms, p@);
                        }
                        perm_insert_vec(&mut self.perms, p);
                    },
                    None => {
                        self.section = PermSection::Idle;
                    },
                },
                PermSection::Runtime => match parse_permission_grant(t) {
                    Some((n, g)) => {
                        let p = PermAcc { name: n, granted: g, level: ProtectionLevel::Dangerous };
                        proof {
                            lemma_perm_ops_wf(self@.perms, p@);
                        }
                        perm_insert_vec(&mut self.perms, p);
                    },
                    None => {
                        self.section = PermSection::Idle;
                    },
                },
                PermSection::Idle => {},
            }
        }
    }

    /// Read one line of the dump.
    fn step(&mut self, line: &Vec<char>)
        requires
            dump_wf(old(self)@),
        ensures
            final(self)@ == dump_step(old(self)@, line@),
            dump_wf(final(self)@),
    {
        let t = trim_vec(line);
        match strip_prefix_str(&t, "versionName=") {
            Some(rest) => {
                self.version_name = rest;
                return ;
            },
            None => {},
        }
        if starts_with_str(&t, "versionCode=") {
            self.version_line(&t);
        } else if contains_str(&t, "Activity Resolver Table:") {
            self.table = Some(Table::Activity);
            self.current = None;
        } else if contains_str(&t, "Receiver Resolver Table:") {
            self.table = Some(Table::Receiver);
            self.current = None;
        } else if contains_str(&t, "Service Resolver Table:") {
            self.table = Some(Table::Service);
            self.current = None;
        } else if contains_str(&t, "Provider Resolver Table:") {
            self.table = Some(Table::Provider);
            self.current = None;
        } else {
            if ends_tables_vec(&t) {
                self.table = None;
                self.current = None;
            }
            match self.table {
                Some(tb) => self.table_line(tb, &t),
                None => self.perm_line(&t),
            }
        }
    }
}

// ---------------------------------------------------------------------------
// Assembling the result
// ---------------------------------------------------------------------------

fn copy_strings(v: &Vec<Vec<char>>) -> (r: Vec<Vec<char>>)
    ensures
        views(r@) == views(v@),
{
    let mut r: Vec<Vec<char>> = Vec::new();
    let mut i: usize = 0;
    while i < v.len()
        invariant
            i <= v.len(),
            views(r@) == views(v@).take(i as int),
        decreases v.len() - i,
    {
        let c = copy_chars(&v[i]);
        let ghost before = views(r@);
        r.push(c);
        assert(views(r@) =~= before.push(c@));
        assert(views(v@).take(i + 1) =~= views(v@).take(i as int).push(v@[i as int]@));
        i += 1;
    }
    assert(views(v@).take(i as int) =~= views(v@));
    r
}

/// Strings for the given character vectors, in the same order.
fn to_strings(v: Vec<Vec<char>>) -> (r: Vec<String>)
    ensures
        string_views(r@) == views(v@),
{
    let mut r: Vec<String> = Vec::new();
    let mut i: usize = 0;
    while i < v.len()
        invariant
            i <= v.len(),
            string_views(r@) == views(v@).take(i as int),
        decreases v.len() - i,
    {
        let s = string_of(v[i].as_slice());
        let ghost before = string_views(r@);
        r.push(s);
        assert(string_views(r@) =~= before.push(s@));
        assert(views(v@).take(i + 1) =~= views(v@).take(i as int).push(v@[i as int]@));
        i += 1;
    }
    assert(views(v@).take(i as int) =~= views(v@));
    r
}

/// The distinct strings of `v`, sorted.
fn sorted_strings(v: &Vec<Vec<char>>) -> (r: Vec<String>)
    requires
        all_distinct(views(v@)),
    ensures
        is_sorted_set(string_views(r@), views(v@)),
{
    let c = copy_strings(v);
    assert forall|i: int, j: int|
        0 <= i < c@.len() && 0 <= j < c@.len() && i != j implies c@[i].key() != c@[j].key() by {
        assert(views(c@)[i] == c@[i]@);
        assert(views(c@)[j] == c@[j]@);
    }
    let ghost cv = c@;
    let sorted = sort_by_key(c);
    proof {
        let sv = views(sorted@);
        assert forall|x: Seq<char>| sv.contains(x) <==> views(v@).contains(x) by {
            if sv.contains(x) {
                let i = choose|i: int| 0 <= i < sv.len() && sv[i] == x;
                assert(sorted@.contains(sorted@[i]));
                assert(cv.contains(sorted@[i]));
                let j = choose|j: int| 0 <= j < cv.len() && cv[j] == sorted@[i];
                assert(views(cv)[j] == x);
            }
            if views(v@).contains(x) {
                let j = choose|j: int| 0 <= j < views(cv).len() && views(cv)[j] == x;
                assert(cv.contains(cv[j]));
                assert(sorted@.contains(cv[j]));
                let i = choose|i: int| 0 <= i < sorted@.len() && sorted@[i] == cv[j];
                assert(sv[i] == x);
            }
        }
        assert forall|i: int, j: int| 0 <= i < j < sv.len() implies chars_lt(sv[i], sv[j]) by {
            assert(sv[i] == sorted@[i].key());
            assert(sv[j] == sorted@[j].key());
        }
    }
    to_strings(sorted)
}

/// A component of the result, with its sort key and whether it is a launcher.
pub struct OutComp {
    pub key: Vec<char>,
    pub comp: Component,
    pub launcher: bool,
}

impl Keyed for OutComp {
    open spec fn key(&self) -> Seq<char> {
        self.key@
    }

    fn key_chars(&self) -> (r: &Vec<char>) {
        &self.key
    }
}

pub open spec fn has_launcher_filter(a: CompAccView) -> bool {
    &&& a.actions.contains("android.intent.action.MAIN"@)
    &&& a.categories.contains("android.intent.category.LAUNCHER"@)
}

/// `o` is built from accumulator `a`.
#[verifier::opaque]
pub open spec fn out_from(o: OutComp, a: CompAccView) -> bool {
    &&& o.key@ == a.name
    &&& component_from(o.comp@, a)
    &&& o.launcher == has_launcher_filter(a)
}

proof fn lemma_comp_pos_of(acc: Seq<CompAccView>, k: int)
    requires
        comps_wf(acc),
        0 <= k < acc.len(),
    ensures
        comp_pos(acc, acc[k].table, acc[k].name) == k,
{
    reveal(comps_wf);
    lemma_comp_pos(acc, acc[k].table, acc[k].name);
}

fn out_comp(c: &CompAcc) -> (o: OutComp)
    requires
        all_distinct(views(c.actions@)),
    ensures
        out_from(o, c@),
        o.key@ == c.name@,
{
    let main = has_string(&c.actions, "android.intent.action.MAIN");
    let launcher_cat = has_string(&c.categories, "android.intent.category.LAUNCHER");
    let perm = match &c.permission {
        Some(p) => Some(string_of(p.as_slice())),
        None => None,
    };
    let comp = Component {
        name: string_of(c.name.as_slice()),
        intent_actions: sorted_strings(&c.actions),
        permission: perm,
    };
    let o = OutComp { key: copy_chars(&c.name), comp, launcher: main && launcher_cat };
    proof {
        reveal(out_from);
    }
    o
}

fn has_string(s: &Vec<Vec<char>>, w: &str) -> (r: bool)
    ensures
        r == views(s@).contains(w@),
{
    let wv = chars_of(w);
    contains_chars(s, &wv)
}

/// Each entry of `r` was built from the component `comps[ix[j]]` of table `t`,
/// and the indices increase.
#[verifier::opaque]
pub open spec fn built_from(r: Seq<OutComp>, comps: Seq<CompAcc>, t: Table, ix: Seq<int>, i: int) -> bool {
    &&& ix.len() == r.len()
    &&& forall|j: int| 0 <= j < ix.len() ==> 0 <= #[trigger] ix[j] < i
    &&& forall|a: int, b: int| 0 <= a < b < ix.len() ==> ix[a] < ix[b]
    &&& forall|j: int|
        0 <= j < r.len() ==> comps[ix[j]].table == t && out_from(#[trigger] r[j], comps[ix[j]]@)
            && r[j].key@ == comps[ix[j]].name@
}

/// Every component of table `t` before index `i` has an entry in `r`.
#[verifier::opaque]
pub open spec fn covers(r: Seq<OutComp>, comps: Seq<CompAcc>, t: Table, i: int) -> bool {
    forall|k: int|
        0 <= k < i && comps[k].table == t ==> exists|j: int|
            0 <= j < r.len() && (#[trigger] r[j]).key@ == comps[k].name@
}

proof fn lemma_outs_push(
    r: Seq<OutComp>,
    comps: Seq<CompAcc>,
    t: Table,
    ix: Seq<int>,
    i: int,
    o: OutComp,
)
    requires
        built_from(r, comps, t, ix, i),
        0 <= i < comps.len(),
        comps[i].table == t,
        out_from(o, comps[i]@),
        o.key@ == comps[i].name@,
    ensures
        built_from(r.push(o), comps, t, ix.push(i), i + 1),
{
    reveal(built_from);
    let r2 = r.push(o);
    let ix2 = ix.push(i);
    assert forall|j: int| 0 <= j < r2.len() implies comps[ix2[j]].table == t && out_from(
        #[trigger] r2[j],
        comps[ix2[j]]@,
    ) && r2[j].key@ == comps[ix2[j]].name@ by {
        if j < r.len() {
            assert(r2[j] == r[j]);
            assert(ix2[j] == ix[j]);
        }
    }
    assert forall|j: int| 0 <= j < ix2.len() implies 0 <= #[trigger] ix2[j] < i + 1 by {
        if j < ix.len() {
            assert(ix2[j] == ix[j]);
        }
    }
    assert forall|a: int, b: int| 0 <= a < b < ix2.len() implies ix2[a] < ix2[b] by {
        if b < ix.len() {
            assert(ix2[a] == ix[a]);
            assert(ix2[b] == ix[b]);
        } else {
            assert(ix2[a] == ix[a]);
        }
    }
}

proof fn lemma_covers_push(r: Seq<OutComp>, comps: Seq<CompAcc>, t: Table, i: int, o: OutComp)
    requires
        covers(r, comps, t, i),
        0 <= i < comps.len(),
        o.key@ == comps[i].name@,
    ensures
        covers(r.push(o), comps, t, i + 1),
{
    reveal(covers);
    let r2 = r.push(o);
    assert forall|k: int| 0 <= k < i + 1 && comps[k].table == t implies exists|j: int|
        0 <= j < r2.len() && (#[trigger] r2[j]).key@ == comps[k].name@ by {
        if k == i {
            assert(r2[r.len() as int].key@ == comps[k].name@);
        } else {
            let j = choose|j: int| 0 <= j < r.len() && (#[trigger] r[j]).key@ == comps[k].name@;
            assert(r2[j] == r[j]);
        }
    }
}

proof fn lemma_outs_skip(r: Seq<OutComp>, comps: Seq<CompAcc>, t: Table, ix: Seq<int>, i: int)
    requires
        built_from(r, comps, t, ix, i),
        covers(r, comps, t, i),
        0 <= i < comps.len(),
        comps[i].table != t,
    ensures
        built_from(r, comps, t, ix, i + 1),
        covers(r, comps, t, i + 1),
{
    reveal(built_from);
    reveal(covers);
}

/// Entry `o` was built from a component of table `t`.
pub open spec fn sound_entry(o: OutComp, comps: Seq<CompAcc>, t: Table) -> bool {
    exists|k: int| 0 <= k < comps.len() && comps[k].table == t && out_from(o, comps[k]@)
}

/// Every entry of `r` was built from a component of table `t`.
#[verifier::opaque]
pub open spec fn outs_sound(r: Seq<OutComp>, comps: Seq<CompAcc>, t: Table) -> bool {
    forall|i: int| 0 <= i < r.len() ==> #[trigger] sound_entry(r[i], comps, t)
}

/// Every component of table `t` has an entry in `r`.
#[verifier::opaque]
pub open spec fn outs_complete(r: Seq<OutComp>, comps: Seq<CompAcc>, t: Table) -> bool {
    forall|k: int|
        0 <= k < comps.len() && comps[k].table == t ==> exists|i: int|
            0 <= i < r.len() && (#[trigger] r[i]).key@ == comps[k].name@
}

proof fn lemma_outs_distinct(r: Seq<OutComp>, comps: Seq<CompAcc>, t: Table, ix: Seq<int>)
    requires
        built_from(r, comps, t, ix, comps.len() as int),
        comps_wf(comp_views(comps)),
    ensures
        keys_distinct(r),
{
    reveal(built_from);
    reveal(comps_wf);
    let acc = comp_views(comps);
    assert forall|a: int, b: int|
        0 <= a < r.len() && 0 <= b < r.len() && a != b implies r[a].key() != r[b].key() by {
        let ka = ix[a];
        let kb = ix[b];
        assert(ka != kb);
        assert(acc[ka] == comps[ka]@);
        assert(acc[kb] == comps[kb]@);
    }
}

proof fn lemma_outs_sound(r: Seq<OutComp>, comps: Seq<CompAcc>, t: Table, ix: Seq<int>)
    requires
        built_from(r, comps, t, ix, comps.len() as int),
    ensures
        outs_sound(r, comps, t),
{
    reveal(built_from);
    reveal(outs_sound);
    assert forall|j: int| 0 <= j < r.len() implies #[trigger] sound_entry(r[j], comps, t) by {
        let k = ix[j];
        let rj = r[j];
        assert(comps[ix[j]].table == t && out_from(rj, comps[ix[j]]@) && rj.key@
            == comps[ix[j]].name@);
        assert(0 <= k < comps.len());
        assert(comps[k].table == t && out_from(rj, comps[k]@));
    }
}

proof fn lemma_outs_complete(r: Seq<OutComp>, comps: Seq<CompAcc>, t: Table)
    requires
        covers(r, comps, t, comps.len() as int),
    ensures
        outs_complete(r, comps, t),
{
    reveal(covers);
    reveal(outs_complete);
}

/// The components of table `t`, each with its key.
fn outs_for(comps: &Vec<CompAcc>, t: Table) -> (r: Vec<OutComp>)
    requires
        comps_wf(comp_views(comps@)),
    ensures
        keys_distinct(r@),
        outs_sound(r@, comps@, t),
        outs_complete(r@, comps@, t),
{
    let mut r: Vec<OutComp> = Vec::new();
    let ghost mut ix: Seq<int> = seq![];
    let mut i: usize = 0;
    proof {
        reveal(built_from);
        reveal(covers);
    }
    while i < comps.len()
        invariant
            i <= comps.len(),
            comps_wf(comp_views(comps@)),
            built_from(r@, comps@, t, ix, i as int),
            covers(r@, comps@, t, i as int),
        decreases comps.len() - i,
    {
        if comps[i].table == t {
            assert(comp_views(comps@)[i as int] == comps@[i as int]@);
            proof {
                reveal(comps_wf);
            }
            assert(all_distinct(comp_views(comps@)[i as int].actions));
            let o = out_comp(&comps[i]);
            proof {
                lemma_outs_push(r@, comps@, t, ix, i as int, o);
                lemma_covers_push(r@, comps@, t, i as int, o);
            }
            r.push(o);
            proof {
                ix = ix.push(i as int);
            }
        } else {
            proof {
                lemma_outs_skip(r@, comps@, t, ix, i as int);
            }
        }
        i += 1;
    }
    proof {
        lemma_outs_distinct(r@, comps@, t, ix);
        lemma_outs_sound(r@, comps@, t, ix);
        lemma_outs_complete(r@, comps@, t);
    }
    r
}

/// What every entry of a sorted list of components satisfies.
pub open spec fn entry_ok(o: OutComp, comps: Seq<CompAcc>, t: Table) -> bool {
    &&& sound_entry(o, comps, t)
    &&& o.comp@.name == o.key@
    &&& (t == Table::Activity ==> o.launcher == is_launcher(comp_views(comps), o.key@))
}

proof fn lemma_sorted_entries(sorted: Seq<OutComp>, outs: Seq<OutComp>, comps: Seq<CompAcc>, t: Table)
    requires
        is_key_sorting(sorted, outs),
        outs_sound(outs, comps, t),
        comps_wf(comp_views(comps)),
    ensures
        forall|j: int| 0 <= j < sorted.len() ==> #[trigger] entry_ok(sorted[j], comps, t),
{
    reveal(outs_sound);
    assert forall|j: int| 0 <= j < sorted.len() implies #[trigger] entry_ok(sorted[j], comps, t) by {
        let o = sorted[j];
        assert(sorted.contains(o));
        assert(outs.contains(o));
        let i = choose|i: int| 0 <= i < outs.len() && outs[i] == o;
        assert(sound_entry(outs[i], comps, t));
        let k = choose|k: int| 0 <= k < comps.len() && comps[k].table == t && out_from(o, comps[k]@);
        reveal(out_from);
        let acc = comp_views(comps);
        assert(acc[k] == comps[k]@);
        lemma_comp_pos_of(acc, k);
    }
}

proof fn lemma_components_result(
    res: Seq<Component>,
    sv: Seq<OutComp>,
    outs: Seq<OutComp>,
    comps: Seq<CompAcc>,
    t: Table,
)
    requires
        res.len() == sv.len(),
        forall|j: int| 0 <= j < res.len() ==> (#[trigger] res[j])@ == sv[j].comp@,
        is_key_sorting(sv, outs),
        outs_complete(outs, comps, t),
        forall|j: int| 0 <= j < sv.len() ==> #[trigger] entry_ok(sv[j], comps, t),
    ensures
        components_match(comp_out_views(res), comp_views(comps), t),
{
    reveal(outs_complete);
    reveal(out_from);
    let out = comp_out_views(res);
    let acc = comp_views(comps);
    assert forall|j: int| 0 <= j < out.len() implies out[j].name == sv[j].key@ by {
        assert(out[j] == res[j]@);
        assert(entry_ok(sv[j], comps, t));
    }
    assert forall|i: int, j: int| 0 <= i < j < out.len() implies chars_lt(out[i].name, out[j].name) by {
        assert(out[i].name == sv[i].key@);
        assert(out[j].name == sv[j].key@);
        assert(chars_lt(sv[i].key(), sv[j].key()));
    }
    assert forall|i: int| 0 <= i < out.len() implies #[trigger] from_some(out[i], acc, t) by {
        assert(out[i] == res[i]@);
        assert(entry_ok(sv[i], comps, t));
        let k = choose|k: int|
            0 <= k < comps.len() && comps[k].table == t && out_from(sv[i], comps[k]@);
        assert(acc[k] == comps[k]@);
    }
    assert forall|k: int| 0 <= k < acc.len() && acc[k].table == t implies #[trigger] has_name(
        out,
        acc[k].name,
    ) by {
        assert(acc[k] == comps[k]@);
        assert(comps[k].table == t);
        let j = choose|j: int| 0 <= j < outs.len() && (#[trigger] outs[j]).key@ == comps[k].name@;
        assert(outs.contains(outs[j]));
        assert(sv.contains(outs[j]));
        let i = choose|i: int| 0 <= i < sv.len() && sv[i] == outs[j];
        assert(out[i].name == sv[i].key@);
    }
}

proof fn lemma_launcher_result(
    l: Option<Seq<char>>,
    res: Seq<Component>,
    sv: Seq<OutComp>,
    comps: Seq<CompAcc>,
)
    requires
        res.len() == sv.len(),
        forall|j: int| 0 <= j < res.len() ==> (#[trigger] res[j])@ == sv[j].comp@,
        forall|j: int| 0 <= j < sv.len() ==> #[trigger] entry_ok(sv[j], comps, Table::Activity),
        match l {
            Some(n) => exists|j: int|
                0 <= j < sv.len() && sv[j].launcher && n == sv[j].key@ && forall|x: int|
                    0 <= x < j ==> !(#[trigger] sv[x]).launcher,
            None => forall|x: int| 0 <= x < sv.len() ==> !(#[trigger] sv[x]).launcher,
        },
    ensures
        launcher_match(l, comp_out_views(res), comp_views(comps)),
{
    let out = comp_out_views(res);
    let acc = comp_views(comps);
    assert forall|j: int| 0 <= j < out.len() implies out[j].name == sv[j].key@ && (
    #[trigger] out[j]).name == sv[j].key@ && sv[j].launcher == is_launcher(acc, out[j].name) by {
        assert(out[j] == res[j]@);
        assert(entry_ok(sv[j], comps, Table::Activity));
    }
    match l {
        Some(n) => {
            let j = choose|j: int|
                0 <= j < sv.len() && sv[j].launcher && n == sv[j].key@ && forall|x: int|
                    0 <= x < j ==> !(#[trigger] sv[x]).launcher;
            assert(out[j].name == n);
            assert forall|x: int| 0 <= x < j implies !is_launcher(acc, #[trigger] out[x].name) by {
                assert(!sv[x].launcher);
            }
        },
        None => {
            assert forall|x: int| 0 <= x < out.len() implies !is_launcher(
                acc,
                #[trigger] out[x].name,
            ) by {
                assert(!sv[x].launcher);
            }
        },
    }
}

/// The components of table `t` in name order, and the first launcher among them.
fn components_for(comps: &Vec<CompAcc>, t: Table) -> (r: (Vec<Component>, Option<String>))
    requires
        comps_wf(comp_views(comps@)),
    ensures
        components_match(comp_out_views(r.0@), comp_views(comps@), t),
        t == Table::Activity ==> launcher_match(
            opt_view(r.1),
            comp_out_views(r.0@),
            comp_views(comps@),
        ),
{
    let outs = outs_for(comps, t);
    let ghost outs_v = outs@;
    let sorted = sort_by_key(outs);
    let ghost sv = sorted@;
    proof {
        lemma_sorted_entries(sv, outs_v, comps@, t);
    }
    let mut res: Vec<Component> = Vec::new();
    let mut launcher: Option<String> = None;
    for o in it: sorted.into_iter()
        invariant
            it.seq() == sv,
            res@.len() == it.index(),
            forall|j: int| 0 <= j < res@.len() ==> (#[trigger] res@[j])@ == sv[j].comp@,
            match launcher {
                Some(n) => exists|j: int|
                    0 <= j < it.index() && sv[j].launcher && n@ == sv[j].key@ && forall|
                        x: int,
                    |
                        0 <= x < j ==> !(#[trigger] sv[x]).launcher,
                None => forall|x: int| 0 <= x < it.index() ==> !(#[trigger] sv[x]).launcher,
            },
    {
        let ghost k = it.index();
        assert(o == sv[k as int]);
        if launcher.is_none() && o.launcher {
            launcher = Some(string_of(o.key.as_slice()));
        }
        let ghost before = res@;
        res.push(o.comp);
        assert forall|j: int| 0 <= j < res@.len() implies (#[trigger] res@[j])@ == sv[j].comp@ by {
            if j < before.len() {
                assert(res@[j] == before[j]);
            }
        }
    }
    proof {
        lemma_components_result(res@, sv, outs_v, comps@, t);
        if t == Table::Activity {
            lemma_launcher_result(opt_view(launcher), res@, sv, comps@);
        }
    }
    (res, launcher)
}

/// The permissions in name order.
fn permissions_for(ps: Vec<PermAcc>) -> (r: Vec<Permission>)
    requires
        perms_wf(perm_views(ps@)),
    ensures
        permissions_match(perm_out_views(r@), perm_views(ps@)),
{
    let ghost pv = perm_views(ps@);
    let ghost orig = ps@;
    assert forall|i: int, j: int|
        0 <= i < orig.len() && 0 <= j < orig.len() && i != j implies orig[i].key() != orig[j].key() by {
        assert(pv[i] == orig[i]@);
        assert(pv[j] == orig[j]@);
    }
    let sorted = sort_by_key(ps);
    let ghost sv = sorted@;
    let mut out: Vec<Permission> = Vec::new();
    for p in it: sorted.into_iter()
        invariant
            it.seq() == sv,
            out@.len() == it.index(),
            forall|j: int| 0 <= j < out@.len() ==> (#[trigger] out@[j])@ == perm_out(sv[j]@),
    {
        let ghost k = it.index();
        assert(p == sv[k as int]);
        let q = Permission {
            name: string_of(p.name.as_slice()),
            granted: p.granted,
            protection_level: p.level,
        };
        let ghost before = out@;
        out.push(q);
        assert forall|j: int| 0 <= j < out@.len() implies (#[trigger] out@[j])@ == perm_out(sv[j]@) by {
            if j < before.len() {
                assert(out@[j] == before[j]);
            }
        }
    }
    proof {
        let ov = perm_out_views(out@);
        let av = pv.map_values(|p: PermAccView| perm_out(p));
        assert forall|j: int| 0 <= j < ov.len() implies ov[j] == perm_out(sv[j]@) by {
            assert(ov[j] == out@[j]@);
        }
        assert forall|i: int, j: int| 0 <= i < j < ov.len() implies chars_lt(ov[i].name, ov[j].name) by {
            assert(chars_lt(sv[i].key(), sv[j].key()));
        }
        assert forall|x: PermissionView| ov.contains(x) <==> av.contains(x) by {
            if ov.contains(x) {
                let j = choose|j: int| 0 <= j < ov.len() && ov[j] == x;
                assert(sv.contains(sv[j]));
                assert(orig.contains(sv[j]));
                let k = choose|k: int| 0 <= k < orig.len() && orig[k] == sv[j];
                assert(av[k] == perm_out(pv[k]));
                assert(pv[k] == orig[k]@);
            }
            if av.contains(x) {
                let k = choose|k: int| 0 <= k < av.len() && av[k] == x;
                assert(pv[k] == orig[k]@);
                assert(orig.contains(orig[k]));
                assert(sv.contains(orig[k]));
                let j = choose|j: int| 0 <= j < sv.len() && sv[j] == orig[k];
                assert(ov[j] == x);
            }
        }
    }
    out
}

/// The characters of `v` without any U+FFFD replacement character.
fn remove_replacement(v: &Vec<char>) -> (r: Vec<char>)
    ensures
        r@ == without_replacement(v@),
{
    let mut r: Vec<char> = Vec::new();
    let mut i: usize = 0;
    while i < v.len()
        invariant
            i <= v.len(),
            r@ == without_replacement(v@.take(i as int)),
        decreases v.len() - i,
    {
        assert(v@.take(i + 1).drop_last() =~= v@.take(i as int));
        if v[i] != '\u{FFFD}' {
            r.push(v[i]);
        }
        i += 1;
    }
    assert(v@.take(i as int) =~= v@);
    r
}

/// Read the whole dump, line by line.
fn read_dump(raw: &str) -> (st: DumpState)
    ensures
        st@ == dump_of(raw@),
        dump_wf(st@),
{
    let chars = chars_of(raw);
    let cleaned = remove_replacement(&chars);
    let ls = lines_vec(&cleaned);
    let ghost lv = views(ls@);
    let mut st = DumpState::new();
    let mut i: usize = 0;
    assert(lv.skip(0) =~= lv);
    while i < ls.len()
        invariant
            i <= ls.len(),
            lv == views(ls@),
            lv == lines(without_replacement(raw@)),
            dump_wf(st@),
            dump_fold(initial_dump(), lv) == dump_fold(st@, lv.skip(i as int)),
        decreases ls.len() - i,
    {
        assert(lv.skip(i as int).drop_first() =~= lv.skip(i + 1));
        assert(lv.skip(i as int)[0] == ls@[i as int]@);
        st.step(&ls[i]);
        i += 1;
    }
    assert(lv.skip(i as int) =~= Seq::<Seq<char>>::empty());
    st
}

impl PackageDumpParser {
    /// Parse a dump for a known package name.
    ///
    /// Permissions come out sorted by name, each once; the components of
    /// each resolver table sorted by name, each once, with their intent
    /// actions sorted; the launcher activity is the first activity, in name
    /// order, with both the `MAIN` action and the `LAUNCHER` category.
    pub fn parse_for(pkg: &str, raw: &str) -> (r: ParseResult<PackageDetail>)
        ensures
            r matches Ok(d) && is_detail_of(d, pkg@, raw@),
    {
        let st = read_dump(raw);
        let ghost sv = st@;
        let DumpState { version_name, version_code, min_sdk, target_sdk, perms, comps, .. } = st;
        let (activities, launcher) = components_for(&comps, Table::Activity);
        let (services, _) = components_for(&comps, Table::Service);
        let (receivers, _) = components_for(&comps, Table::Receiver);
        let (providers, _) = components_for(&comps, Table::Provider);
        let permissions = permissions_for(perms);
        let d = PackageDetail {
            name: String::from_str(pkg),
            version_name: string_of(version_name.as_slice()),
            version_code,
            min_sdk,
            target_sdk,
            permissions,
            activities,
            services,
            receivers,
            providers,
            launcher_activity: launcher,
            raw: String::from_str(raw),
        };
        Ok(d)
    }
}

/// Parser for `dumpsys package` output.
pub struct PackageDumpParser;

impl Parse for PackageDumpParser {
    type Output = PackageDetail;

    /// Takes the package name from the first `Package [<name>]` header line
    /// (empty when there is none), then parses as [`PackageDumpParser::parse_for`].
    fn parse(raw: &str) -> (r: ParseResult<PackageDetail>)
        ensures
            r matches Ok(d) && is_detail_of(d, header_name(lines(raw@)), raw@),
    {
        let ls = lines_of(raw);
        let ghost lv = views(ls@);
        let mut i: usize = 0;
        assert(lv.skip(0) =~= lv);
        while i < ls.len()
            invariant
                i <= ls.len(),
                lv == views(ls@),
                lv == lines(raw@),
                header_name(lv) == header_name(lv.skip(i as int)),
            decreases ls.len() - i,
        {
            let ghost rest = lv.skip(i as int);
            assert(rest[0] == ls@[i as int]@);
            assert(rest.drop_first() =~= lv.skip(i + 1));
            let t = trim_vec(&ls[i]);
            match strip_prefix_str(&t, "Package [") {
                Some(after) => match split_once_vec(&after, CharClass::Is(']')) {
                    Some((n, _)) => {
                        let s = string_of(n.as_slice());
                        return PackageDumpParser::parse_for(s.as_str(), raw);
                    },
                    None => {},
                },
                None => {},
            }
            i += 1;
        }
        assert(lv.skip(i as int) =~= Seq::<Seq<char>>::empty());
        let s = String::new();
        PackageDumpParser::parse_for(s.as_str(), raw)
    }
}

// ---------------------------------------------------------------------------
// A dump determines its detail
// ---------------------------------------------------------------------------

/// No two accumulated components share a table and a name.
pub open spec fn comps_distinct(cs: Seq<CompAccView>) -> bool {
    forall|i: int, j: int|
        0 <= i < j < cs.len() ==> !((#[trigger] cs[i]).table == (#[trigger] cs[j]).table && cs[i].name
            == cs[j].name)
}

/// Changing the entry at `i` without touching its table or name, or adding
/// an entry whose table and name are new, keeps the entries distinct.
proof fn lemma_distinct_after(cs: Seq<CompAccView>, t: Table, n: Seq<char>, out: Seq<CompAccView>)
    requires
        comps_distinct(cs),
        comp_pos(cs, t, n) >= 0 ==> out.len() == cs.len() && forall|j: int|
            0 <= j < cs.len() ==> (#[trigger] out[j]).table == cs[j].table && out[j].name == cs[j].name,
        comp_pos(cs, t, n) < 0 ==> out.len() == cs.len() + 1 && out.last().table == t
            && out.last().name == n && forall|j: int| 0 <= j < cs.len() ==> #[trigger] out[j] == cs[j],
    ensures
        comps_distinct(out),
{
    lemma_comp_pos(cs, t, n);
    if comp_pos(cs, t, n) < 0 {
        assert forall|i: int, j: int|
            0 <= i < j < out.len() implies !((#[trigger] out[i]).table == (#[trigger] out[j]).table
            && out[i].name == out[j].name) by {
            if j == cs.len() {
                assert(out[i] == cs[i]);
            } else {
                assert(out[i] == cs[i] && out[j] == cs[j]);
            }
        }
    } else {
        assert forall|i: int, j: int|
            0 <= i < j < out.len() implies !((#[trigger] out[i]).table == (#[trigger] out[j]).table
            && out[i].name == out[j].name) by {
            assert(out[i].table == cs[i].table && out[j].table == cs[j].table);
        }
    }
}

proof fn lemma_table_line_distinct(st: DumpView, tb: Table, t: Seq<char>)
    requires
        comps_distinct(st.comps),
    ensures
        comps_distinct(table_line(st, tb, t).comps),
{
    match component_line(t) {
        Some((name, perm)) => {
            lemma_comp_pos(st.comps, tb, name);
            lemma_distinct_after(st.comps, tb, name, comp_touch(st.comps, tb, name, perm));
        },
        None => match quoted_value(t, "Action:"@) {
            Some(a) => match st.current {
                Some((ct, cn)) => {
                    lemma_comp_pos(st.comps, ct, cn);
                    lemma_distinct_after(st.comps, ct, cn, comp_add_action(st.comps, ct, cn, a));
                },
                None => {},
            },
            None => match quoted_value(t, "Category:"@) {
                Some(c) => match st.current {
                    Some((ct, cn)) => {
                        lemma_comp_pos(st.comps, ct, cn);
                        lemma_distinct_after(
                            st.comps,
                            ct,
                            cn,
                            comp_add_category(st.comps, ct, cn, c),
                        );
                    },
                    None => {},
                },
                None => {},
            },
        },
    }
}

proof fn lemma_version_tokens_comps(st: DumpView, toks: Seq<Seq<char>>)
    ensures
        version_tokens(st, toks).comps == st.comps,
        version_tokens(st, toks).perms == st.perms,
    decreases toks.len(),
{
    if toks.len() > 0 {
        lemma_version_tokens_comps(version_token(st, toks[0]), toks.drop_first());
    }
}

proof fn lemma_step_distinct(st: DumpView, line: Seq<char>)
    requires
        comps_distinct(st.comps),
    ensures
        comps_distinct(dump_step(st, line).comps),
{
    let t = trim(line);
    lemma_version_tokens_comps(st, tokens(t));
    let st1 = if ends_tables(t) {
        DumpView { table: None, current: None, ..st }
    } else {
        st
    };
    match st1.table {
        Some(tb) => lemma_table_line_distinct(st1, tb, t),
        None => {},
    }
}

proof fn lemma_fold_distinct(st: DumpView, ls: Seq<Seq<char>>)
    requires
        comps_distinct(st.comps),
    ensures
        comps_distinct(dump_fold(st, ls).comps),
    decreases ls.len(),
{
    if ls.len() > 0 {
        lemma_step_distinct(st, ls[0]);
        lemma_fold_distinct(dump_step(st, ls[0]), ls.drop_first());
    }
}

/// Two component lists that both match table `t` of distinct entries are
/// the same list.
proof fn lemma_components_unique(
    o1: Seq<ComponentView>,
    o2: Seq<ComponentView>,
    acc: Seq<CompAccView>,
    t: Table,
)
    requires
        comps_distinct(acc),
        components_match(o1, acc, t),
        components_match(o2, acc, t),
    ensures
        o1 == o2,
{
    let name = |c: ComponentView| c.name;
    let id = |s: Seq<char>| s;
    let n1 = o1.map_values(name);
    let n2 = o2.map_values(name);
    assert forall|x: Seq<char>| n1.contains(x) implies n2.contains(x) by {
        let i = choose|i: int| 0 <= i < n1.len() && n1[i] == x;
        assert(from_some(o1[i], acc, t));
        let k = choose|k: int| 0 <= k < acc.len() && acc[k].table == t && component_from(o1[i], acc[k]);
        assert(has_name(o2, acc[k].name));
        let i2 = choose|i2: int| 0 <= i2 < o2.len() && o2[i2].name == acc[k].name;
        assert(n2[i2] == x);
    }
    assert forall|x: Seq<char>| n2.contains(x) implies n1.contains(x) by {
        let i = choose|i: int| 0 <= i < n2.len() && n2[i] == x;
        assert(from_some(o2[i], acc, t));
        let k = choose|k: int| 0 <= k < acc.len() && acc[k].table == t && component_from(o2[i], acc[k]);
        assert(has_name(o1, acc[k].name));
        let i1 = choose|i1: int| 0 <= i1 < o1.len() && o1[i1].name == acc[k].name;
        assert(n1[i1] == x);
    }
    assert forall|i: int, j: int| 0 <= i < j < n1.len() implies chars_lt(id(n1[i]), id(n1[j])) by {
        assert(chars_lt(o1[i].name, o1[j].name));
    }
    assert forall|i: int, j: int| 0 <= i < j < n2.len() implies chars_lt(id(n2[i]), id(n2[j])) by {
        assert(chars_lt(o2[i].name, o2[j].name));
    }
    lemma_sorted_same_elements(n1, n2, id);
    assert(o1.len() == o2.len()) by {
        assert(n1.len() == n2.len());
    }
    assert forall|i: int| 0 <= i < o1.len() implies o1[i] == o2[i] by {
        assert(n1[i] == n2[i]);
        assert(from_some(o1[i], acc, t));
        assert(from_some(o2[i], acc, t));
        let k1 = choose|k: int| 0 <= k < acc.len() && acc[k].table == t && component_from(o1[i], acc[k]);
        let k2 = choose|k: int| 0 <= k < acc.len() && acc[k].table == t && component_from(o2[i], acc[k]);
        if k1 < k2 {
            assert(!(acc[k1].table == acc[k2].table && acc[k1].name == acc[k2].name));
        } else if k2 < k1 {
            assert(!(acc[k2].table == acc[k1].table && acc[k2].name == acc[k1].name));
        }
        lemma_sorted_same_elements(o1[i].intent_actions, o2[i].intent_actions, id);
    }
    assert(o1 =~= o2);
}

/// Two permission lists that both match the same accumulated permissions
/// are the same list.
proof fn lemma_permissions_unique(o1: Seq<PermissionView>, o2: Seq<PermissionView>, acc: Seq<PermAccView>)
    requires
        permissions_match(o1, acc),
        permissions_match(o2, acc),
    ensures
        o1 == o2,
{
    let name = |p: PermissionView| p.name;
    assert forall|i: int, j: int| 0 <= i < j < o1.len() implies chars_lt(name(o1[i]), name(o1[j])) by {}
    assert forall|i: int, j: int| 0 <= i < j < o2.len() implies chars_lt(name(o2[i]), name(o2[j])) by {}
    lemma_sorted_same_elements(o1, o2, name);
}

/// Two launcher choices over the same activities are the same choice.
proof fn lemma_launcher_unique(
    l1: Option<Seq<char>>,
    l2: Option<Seq<char>>,
    acts: Seq<ComponentView>,
    acc: Seq<CompAccView>,
)
    requires
        launcher_match(l1, acts, acc),
        launcher_match(l2, acts, acc),
    ensures
        l1 == l2,
{
    match (l1, l2) {
        (Some(n1), Some(n2)) => {
            let i1 = choose|i: int|
                0 <= i < acts.len() && acts[i].name == n1 && is_launcher(acc, n1) && forall|j: int|
                    0 <= j < i ==> !is_launcher(acc, #[trigger] acts[j].name);
            let i2 = choose|i: int|
                0 <= i < acts.len() && acts[i].name == n2 && is_launcher(acc, n2) && forall|j: int|
                    0 <= j < i ==> !is_launcher(acc, #[trigger] acts[j].name);
            if i1 < i2 {
                assert(!is_launcher(acc, acts[i1].name));
            } else if i2 < i1 {
                assert(!is_launcher(acc, acts[i2].name));
            }
        },
        (Some(n1), None) => {
            let i1 = choose|i: int|
                0 <= i < acts.len() && acts[i].name == n1 && is_launcher(acc, n1) && forall|j: int|
                    0 <= j < i ==> !is_launcher(acc, #[trigger] acts[j].name);
            assert(!is_launcher(acc, acts[i1].name));
        },
        (None, Some(n2)) => {
            let i2 = choose|i: int|
                0 <= i < acts.len() && acts[i].name == n2 && is_launcher(acc, n2) && forall|j: int|
                    0 <= j < i ==> !is_launcher(acc, #[trigger] acts[j].name);
            assert(!is_launcher(acc, acts[i2].name));
        },
        (None, None) => {},
    }
}

/// `a` and `b` hold the same detail: every field is equal, strings and lists
/// taken by their contents.
pub open spec fn same_detail(a: PackageDetail, b: PackageDetail) -> bool {
    &&& a.name@ == b.name@
    &&& a.raw@ == b.raw@
    &&& a.version_name@ == b.version_name@
    &&& a.version_code == b.version_code
    &&& a.min_sdk == b.min_sdk
    &&& a.target_sdk == b.target_sdk
    &&& perm_out_views(a.permissions@) == perm_out_views(b.permissions@)
    &&& comp_out_views(a.activities@) == comp_out_views(b.activities@)
    &&& comp_out_views(a.services@) == comp_out_views(b.services@)
    &&& comp_out_views(a.receivers@) == comp_out_views(b.receivers@)
    &&& comp_out_views(a.providers@) == comp_out_views(b.providers@)
    &&& opt_view(a.launcher_activity) == opt_view(b.launcher_activity)
}

/// A dump and a package name determine the detail: any two details of the
/// same dump for the same name are the same.
pub proof fn lemma_detail_unique(d1: PackageDetail, d2: PackageDetail, pkg: Seq<char>, raw: Seq<char>)
    requires
        is_detail_of(d1, pkg, raw),
        is_detail_of(d2, pkg, raw),
    ensures
        same_detail(d1, d2),
{
    let st = dump_of(raw);
    lemma_fold_distinct(initial_dump(), lines(without_replacement(raw)));
    lemma_permissions_unique(perm_out_views(d1.permissions@), perm_out_views(d2.permissions@), st.perms);
    lemma_components_unique(
        comp_out_views(d1.activities@),
        comp_out_views(d2.activities@),
        st.comps,
        Table::Activity,
    );
    lemma_components_unique(
        comp_out_views(d1.services@),
        comp_out_views(d2.services@),
        st.comps,
        Table::Service,
    );
    lemma_components_unique(
        comp_out_views(d1.receivers@),
        comp_out_views(d2.receivers@),
        st.comps,
        Table::Receiver,
    );
    lemma_components_unique(
        comp_out_views(d1.providers@),
        comp_out_views(d2.providers@),
        st.comps,
        Table::Provider,
    );
    lemma_launcher_unique(
        opt_view(d1.launcher_activity),
        opt_view(d2.launcher_activity),
        comp_out_views(d1.activities@),
        st.comps,
    );
}

// ---------------------------------------------------------------------------
// Grants and intent actions
// ---------------------------------------------------------------------------

/// Every permission of `ps` that is granted has a line among `ls` that
/// grants it: `<name>: ... granted=true`.
pub open spec fn grants_witnessed(ps: Seq<PermAccView>, ls: Seq<Seq<char>>) -> bool {
    forall|i: int|
        0 <= i < ps.len() && (#[trigger] ps[i]).granted ==> exists|k: int|
            0 <= k < ls.len() && permission_grant(trim(#[trigger] ls[k])) == Some((ps[i].name, true))
}

proof fn lemma_perm_line_grants(st: DumpView, t: Seq<char>, ls: Seq<Seq<char>>)
    requires
        grants_witnessed(st.perms, ls),
        ls.len() > 0,
        trim(ls.last()) == t,
    ensures
        grants_witnessed(perm_line(st, t).perms, ls),
{
    let out = perm_line(st, t).perms;
    let last = ls.len() - 1;
    if t == "requested permissions:"@ || t == "install permissions:"@ || t == "runtime permissions:"@ {
    } else {
        match st.section {
            PermSection::Requested => match permission_name(t) {
                Some(n) => {
                    lemma_perm_pos(st.perms, n);
                    assert forall|i: int| 0 <= i < out.len() && (#[trigger] out[i]).granted implies exists|k: int|
                        0 <= k < ls.len() && permission_grant(trim(#[trigger] ls[k])) == Some((out[i].name, true)) by {
                        assert(i < st.perms.len());
                        assert(out[i] == st.perms[i]);
                    }
                },
                None => {},
            },
            PermSection::Install | PermSection::Runtime => match permission_grant(t) {
                Some((n, g)) => {
                    lemma_perm_pos(st.perms, n);
                    assert forall|i: int| 0 <= i < out.len() && (#[trigger] out[i]).granted implies exists|k: int|
                        0 <= k < ls.len() && permission_grant(trim(#[trigger] ls[k])) == Some((out[i].name, true)) by {
                        let pos = perm_pos(st.perms, n);
                        if (pos < 0 && i == st.perms.len()) || (pos >= 0 && i == pos) {
                            assert(out[i].name == n && out[i].granted == g);
                            assert(permission_grant(trim(ls[last])) == Some((out[i].name, true)));
                        } else {
                            assert(out[i] == st.perms[i]);
                        }
                    }
                },
                None => {},
            },
            PermSection::Idle => {},
        }
    }
}

proof fn lemma_step_grants(st: DumpView, line: Seq<char>, pre: Seq<Seq<char>>)
    requires
        grants_witnessed(st.perms, pre),
    ensures
        grants_witnessed(dump_step(st, line).perms, pre.push(line)),
{
    let ls = pre.push(line);
    assert forall|i: int| 0 <= i < st.perms.len() && (#[trigger] st.perms[i]).granted implies exists|k: int|
        0 <= k < ls.len() && permission_grant(trim(#[trigger] ls[k])) == Some((st.perms[i].name, true)) by {
        let k = choose|k: int| 0 <= k < pre.len() && permission_grant(trim(#[trigger] pre[k])) == Some((st.perms[i].name, true));
        assert(ls[k] == pre[k]);
    }
    let t = trim(line);
    lemma_version_tokens_comps(st, tokens(t));
    let st1 = if ends_tables(t) {
        DumpView { table: None, current: None, ..st }
    } else {
        st
    };
    match st1.table {
        Some(tb) => {},
        None => lemma_perm_line_grants(st1, t, ls),
    }
}

proof fn lemma_fold_grants(st: DumpView, pre: Seq<Seq<char>>, ls: Seq<Seq<char>>)
    requires
        grants_witnessed(st.perms, pre),
    ensures
        grants_witnessed(dump_fold(st, ls).perms, pre + ls),
    decreases ls.len(),
{
    if ls.len() == 0 {
        assert(pre + ls =~= pre);
    } else {
        lemma_step_grants(st, ls[0], pre);
        lemma_fold_grants(dump_step(st, ls[0]), pre.push(ls[0]), ls.drop_first());
        assert(pre.push(ls[0]) + ls.drop_first() =~= pre + ls);
    }
}

/// A permission of the dump is granted only where a line of the dump grants
/// it: `<name>: ... granted=true` in an install or runtime block. A
/// permission that is only requested stays ungranted.
pub proof fn lemma_granted_has_grant_line(raw: Seq<char>, i: int)
    requires
        0 <= i < dump_of(raw).perms.len(),
        dump_of(raw).perms[i].granted,
    ensures
        exists|k: int|
            0 <= k < lines(without_replacement(raw)).len() && permission_grant(
                trim(#[trigger] lines(without_replacement(raw))[k]),
            ) == Some((dump_of(raw).perms[i].name, true)),
{
    let ls = lines(without_replacement(raw));
    lemma_fold_grants(initial_dump(), seq![], ls);
    assert(Seq::<Seq<char>>::empty() + ls =~= ls);
    assert(dump_of(raw).perms[i].granted);
}

/// Entries of `a` keep their place, table and name in `b`, and each keeps
/// every intent action it had.
pub open spec fn comps_grow(a: Seq<CompAccView>, b: Seq<CompAccView>) -> bool {
    &&& a.len() <= b.len()
    &&& forall|j: int| 0 <= j < a.len() ==> {
        &&& (#[trigger] b[j]).table == a[j].table
        &&& b[j].name == a[j].name
        &&& forall|x: Seq<char>| a[j].actions.contains(x) ==> #[trigger] b[j].actions.contains(x)
    }
}

proof fn lemma_table_line_grows(st: DumpView, tb: Table, t: Seq<char>)
    ensures
        comps_grow(st.comps, table_line(st, tb, t).comps),
{
    let cs = st.comps;
    let out = table_line(st, tb, t).comps;
    match component_line(t) {
        Some((name, perm)) => {
            lemma_comp_pos(cs, tb, name);
        },
        None => match quoted_value(t, "Action:"@) {
            Some(a) => match st.current {
                Some((ct, cn)) => {
                    lemma_comp_pos(cs, ct, cn);
                    let pos = comp_pos(cs, ct, cn);
                    assert forall|j: int| 0 <= j < cs.len() implies {
                        &&& (#[trigger] out[j]).table == cs[j].table
                        &&& out[j].name == cs[j].name
                        &&& forall|x: Seq<char>| cs[j].actions.contains(x) ==> #[trigger] out[j].actions.contains(x)
                    } by {
                        if j == pos {
                            assert forall|x: Seq<char>| cs[j].actions.contains(x) implies #[trigger] out[j].actions.contains(x) by {
                                if !cs[j].actions.contains(a) {
                                    let q = choose|q: int| 0 <= q < cs[j].actions.len() && cs[j].actions[q] == x;
                                    assert(cs[j].actions.push(a)[q] == x);
                                }
                            }
                        }
                    }
                },
                None => {},
            },
            None => match quoted_value(t, "Category:"@) {
                Some(c) => match st.current {
                    Some((ct, cn)) => {
                        lemma_comp_pos(cs, ct, cn);
                    },
                    None => {},
                },
                None => {},
            },
        },
    }
}

proof fn lemma_step_grows(st: DumpView, line: Seq<char>)
    ensures
        comps_grow(st.comps, dump_step(st, line).comps),
{
    let t = trim(line);
    lemma_version_tokens_comps(st, tokens(t));
    let st1 = if ends_tables(t) {
        DumpView { table: None, current: None, ..st }
    } else {
        st
    };
    match st1.table {
        Some(tb) => lemma_table_line_grows(st1, tb, t),
        None => {},
    }
}

proof fn lemma_grow_trans(a: Seq<CompAccView>, b: Seq<CompAccView>, c: Seq<CompAccView>)
    requires
        comps_grow(a, b),
        comps_grow(b, c),
    ensures
        comps_grow(a, c),
{
    assert forall|j: int| 0 <= j < a.len() implies {
        &&& (#[trigger] c[j]).table == a[j].table
        &&& c[j].name == a[j].name
        &&& forall|x: Seq<char>| a[j].actions.contains(x) ==> #[trigger] c[j].actions.contains(x)
    } by {
        assert(b[j].table == a[j].table);
        assert forall|x: Seq<char>| a[j].actions.contains(x) implies #[trigger] c[j].actions.contains(x) by {
            assert(b[j].actions.contains(x));
        }
    }
}

/// Reading lines never drops a component or any of its intent actions.
pub proof fn lemma_fold_grows(st: DumpView, ls: Seq<Seq<char>>)
    ensures
        comps_grow(st.comps, dump_fold(st, ls).comps),
    decreases ls.len(),
{
    if ls.len() == 0 {
    } else {
        lemma_step_grows(st, ls[0]);
        lemma_fold_grows(dump_step(st, ls[0]), ls.drop_first());
        lemma_grow_trans(st.comps, dump_step(st, ls[0]).comps, dump_fold(st, ls).comps);
    }
}

/// An `Action: "<a>"` line read while component `(ct, cn)` of a resolver
/// table is current (and that keeps it current) records `a` among that
/// component's intent actions, whatever actions it already had.
pub proof fn lemma_action_recorded(st: DumpView, line: Seq<char>, ct: Table, cn: Seq<char>, a: Seq<char>)
    requires
        st.table is Some,
        st.current == Some((ct, cn)),
        component_line(trim(line)) is None,
        quoted_value(trim(line), "Action:"@) == Some(a),
        dump_step(st, line).current == st.current,
    ensures
        exists|j: int|
            0 <= j < dump_step(st, line).comps.len() && (#[trigger] dump_step(st, line).comps[j]).table
                == ct && dump_step(st, line).comps[j].name == cn
                && dump_step(st, line).comps[j].actions.contains(a),
{
    let t = trim(line);
    reveal_strlit("Action:");
    reveal_strlit("versionName=");
    reveal_strlit("versionCode=");
    assert(t.take(7) == "Action:"@);
    assert(t.take(7)[0] == t[0]);
    assert("Action:"@[0] == 'A');
    assert(t[0] == 'A');
    assert(strip_prefix(t, "versionName="@) is None) by {
        if starts_with(t, "versionName="@) {
            assert(t.take(12)[0] == t[0]);
            assert("versionName="@[0] == 'v');
        }
    }
    assert(!starts_with(t, "versionCode="@)) by {
        if starts_with(t, "versionCode="@) {
            assert(t.take(12)[0] == t[0]);
            assert("versionCode="@[0] == 'v');
        }
    }
    let cs = st.comps;
    lemma_comp_pos(cs, ct, cn);
    let pos = comp_pos(cs, ct, cn);
    let out = dump_step(st, line).comps;
    assert(out == comp_add_action(cs, ct, cn, a));
    if pos < 0 {
        assert(out[cs.len() as int].actions == seq![a]);
        assert(out[cs.len() as int].actions[0] == a);
    } else {
        let acts = cs[pos].actions;
        if acts.contains(a) {
        } else {
            assert(acts.push(a)[acts.len() as int] == a);
        }
        assert(out[pos].actions.contains(a));
    }
}

proof fn lemma_fold_split(s: DumpView, ls: Seq<Seq<char>>, k: int)
    requires
        0 <= k <= ls.len(),
    ensures
        dump_fold(s, ls) == dump_fold(dump_fold(s, ls.take(k)), ls.skip(k)),
    decreases k,
{
    if k == 0 {
        assert(ls.take(0) =~= Seq::<Seq<char>>::empty());
        assert(ls.skip(0) =~= ls);
    } else {
        lemma_fold_split(dump_step(s, ls[0]), ls.drop_first(), k - 1);
        assert(ls.take(k)[0] == ls[0]);
        assert(ls.take(k).drop_first() =~= ls.drop_first().take(k - 1));
        assert(ls.drop_first().skip(k - 1) =~= ls.skip(k));
    }
}

/// The components that `d` lists for table `t`.
pub open spec fn table_components(d: PackageDetail, t: Table) -> Seq<ComponentView> {
    match t {
        Table::Activity => comp_out_views(d.activities@),
        Table::Service => comp_out_views(d.services@),
        Table::Receiver => comp_out_views(d.receivers@),
        Table::Provider => comp_out_views(d.providers@),
    }
}

/// Line `k` of dump `raw` is `Action: "<a>"`, read inside a resolver table
/// while component `(ct, cn)` is the current one, and it leaves that
/// component current (it is neither a component line nor a header).
pub open spec fn action_line_at(raw: Seq<char>, k: int, ct: Table, cn: Seq<char>, a: Seq<char>) -> bool {
    let ls = lines(without_replacement(raw));
    let st = dump_fold(initial_dump(), ls.take(k));
    &&& 0 <= k < ls.len()
    &&& st.table is Some
    &&& st.current == Some((ct, cn))
    &&& component_line(trim(ls[k])) is None
    &&& quoted_value(trim(ls[k]), "Action:"@) == Some(a)
    &&& dump_step(st, ls[k]).current == st.current
}

/// Every `Action: "<a>"` line under a component of a resolver table shows
/// up in that component's intent actions in the parsed detail, however
/// many actions the component declares.
pub proof fn lemma_detail_keeps_action(
    d: PackageDetail,
    pkg: Seq<char>,
    raw: Seq<char>,
    k: int,
    ct: Table,
    cn: Seq<char>,
    a: Seq<char>,
)
    requires
        is_detail_of(d, pkg, raw),
        action_line_at(raw, k, ct, cn, a),
    ensures
        exists|i: int|
            0 <= i < table_components(d, ct).len() && (#[trigger] table_components(d, ct)[i]).name
                == cn && table_components(d, ct)[i].intent_actions.contains(a),
{
    let ls = lines(without_replacement(raw));
    let sk = dump_fold(initial_dump(), ls.take(k));
    let sk1 = dump_step(sk, ls[k]);
    lemma_action_recorded(sk, ls[k], ct, cn, a);
    let j = choose|j: int|
        0 <= j < sk1.comps.len() && (#[trigger] sk1.comps[j]).table == ct && sk1.comps[j].name == cn
            && sk1.comps[j].actions.contains(a);
    lemma_fold_split(initial_dump(), ls, k + 1);
    lemma_fold_split(initial_dump(), ls.take(k + 1), k);
    assert(ls.take(k + 1).take(k) =~= ls.take(k));
    assert(ls.take(k + 1).skip(k) =~= seq![ls[k]]);
    let one = seq![ls[k]];
    assert(one.drop_first() =~= Seq::<Seq<char>>::empty());
    assert(one[0] == ls[k]);
    assert(dump_fold(sk1, Seq::<Seq<char>>::empty()) == sk1);
    assert(dump_fold(sk, one) == dump_fold(dump_step(sk, one[0]), one.drop_first()));
    assert(dump_fold(initial_dump(), ls.take(k + 1)) == sk1);
    lemma_fold_grows(sk1, ls.skip(k + 1));
    let acc = dump_of(raw).comps;
    assert(acc == dump_fold(sk1, ls.skip(k + 1)).comps);
    assert(acc[j].table == ct && acc[j].name == cn && acc[j].actions.contains(a));
    lemma_fold_distinct(initial_dump(), ls);
    let out = table_components(d, ct);
    assert(components_match(out, acc, ct));
    assert(has_name(out, acc[j].name));
    let i = choose|i: int| 0 <= i < out.len() && out[i].name == acc[j].name;
    assert(from_some(out[i], acc, ct));
    let k2 = choose|k2: int| 0 <= k2 < acc.len() && acc[k2].table == ct && component_from(out[i], acc[k2]);
    if k2 < j {
        assert(!(acc[k2].table == acc[j].table && acc[k2].name == acc[j].name));
    } else if j < k2 {
        assert(!(acc[j].table == acc[k2].table && acc[j].name == acc[k2].name));
    }
    assert(out[i].intent_actions.contains(a));
}

/// A permission that the parsed detail reports as granted has a line of the
/// dump that grants it, `<name>: ... granted=true`; one that is only
/// requested is reported ungranted.
pub proof fn lemma_detail_granted_has_grant_line(d: PackageDetail, pkg: Seq<char>, raw: Seq<char>, i: int)
    requires
        is_detail_of(d, pkg, raw),
        0 <= i < d.permissions@.len(),
        d.permissions@[i].granted,
    ensures
        exists|k: int|
            0 <= k < lines(without_replacement(raw)).len() && permission_grant(
                trim(#[trigger] lines(without_replacement(raw))[k]),
            ) == Some((d.permissions@[i].name@, true)),
{
    let st = dump_of(raw);
    let out = perm_out_views(d.permissions@);
    assert(out[i] == d.permissions@[i]@);
    assert(out.contains(out[i]));
    let mapped = st.perms.map_values(|p: PermAccView| perm_out(p));
    assert(mapped.contains(out[i]));
    let j = choose|j: int| 0 <= j < mapped.len() && mapped[j] == out[i];
    assert(perm_out(st.perms[j]) == out[i]);
    lemma_granted_has_grant_line(raw, j);
}

} // verus!
