//! What the terminal UI puts on screen: the texts, counts and highlighted
//! rows that the drawing code lays out. Colours, borders and layout belong to
//! the drawing code itself.

use vstd::prelude::*;

use crate::parser::model::{
    Component, CpuInfo, DeviceInfo, PackageDetail, PackageRef, Permission, ProtectionLevel,
    ScreenInfo, StorageEntry,
};
use crate::tui::{truncate, DetailTab, PackagesState, View};
use crate::text::{byte_len, chars_of, decimal, eq_str, push_decimal, push_str, string_of};
use vstd::view::View as _;

verus! {

/// A package's row in the list: system packages are marked `[s] `.
pub open spec fn package_item(p: PackageRef) -> Seq<char> {
    if p.system {
        "[s] "@ + p.name@
    } else {
        p.name@
    }
}

pub fn package_item_text(p: &PackageRef) -> (r: String)
    ensures
        r@ == package_item(*p),
{
    let mut out: Vec<char> = Vec::new();
    if p.system {
        push_str(&mut out, "[s] ");
    }
    push_str(&mut out, p.name.as_str());
    string_of(out.as_slice())
}

/// The list's title: the total, and the number shown when a query narrows it.
pub fn package_list_title(query_empty: bool, shown: usize, total: usize) -> (r: String)
    ensures
        query_empty ==> r@ == "Packages ("@ + decimal(total as nat) + ")"@,
        !query_empty ==> r@ == "Packages ("@ + decimal(shown as nat) + "/"@ + decimal(
            total as nat,
        ) + ")"@,
{
    let mut out: Vec<char> = Vec::new();
    push_str(&mut out, "Packages (");
    if !query_empty {
        push_decimal(&mut out, shown as u64);
        push_str(&mut out, "/");
    }
    push_decimal(&mut out, total as u64);
    push_str(&mut out, ")");
    string_of(out.as_slice())
}

/// The highlighted row of a list of `len` rows: the selection, held on the
/// last row when it is past the end; none for an empty list.
pub fn highlighted_row(selected: usize, len: usize) -> (r: Option<usize>)
    ensures
        len == 0 ==> r is None,
        len > 0 ==> r == Some(if selected < len {
            selected
        } else {
            (len - 1) as usize
        }),
{
    if len == 0 {
        None
    } else if selected < len {
        Some(selected)
    } else {
        Some(len - 1)
    }
}

/// What the package detail pane shows.
#[derive(Debug, Clone, Copy, PartialEq, Eq, Structural)]
pub enum DetailPane {
    /// A fetch is under way.
    Fetching,
    /// The last fetch failed.
    Failed,
    /// Nothing fetched yet.
    Choose,
    /// The fetched detail.
    Detail,
}

pub fn detail_pane(s: &PackagesState) -> (r: DetailPane)
    ensures
        s.pending is Some ==> r == DetailPane::Fetching,
        s.pending is None && s.detail_error is Some ==> r == DetailPane::Failed,
        s.pending is None && s.detail_error is None && s.detail is None ==> r == DetailPane::Choose,
        s.pending is None && s.detail_error is None && s.detail is Some ==> r == DetailPane::Detail,
{
    if s.pending.is_some() {
        DetailPane::Fetching
    } else if s.detail_error.is_some() {
        DetailPane::Failed
    } else if s.detail.is_none() {
        DetailPane::Choose
    } else {
        DetailPane::Detail
    }
}

/// The detail pane's title: the package being fetched, else the one shown,
/// else `package`.
pub fn detail_title(s: &PackagesState) -> (r: String)
    ensures
        s.pending matches Some(p) ==> r@ == p@,
        s.pending is None ==> (s.detail matches Some(d) ==> r@ == d.name@),
        s.pending is None && s.detail is None ==> r@ == "package"@,
{
    match &s.pending {
        Some(p) => p.clone(),
        None => match &s.detail {
            Some(d) => d.name.clone(),
            None => string_of(chars_of("package").as_slice()),
        },
    }
}

/// How many of the permissions are dangerous.
pub open spec fn dangerous_in(ps: Seq<Permission>) -> nat
    decreases ps.len(),
{
    if ps.len() == 0 {
        0
    } else {
        dangerous_in(ps.drop_last()) + if ps.last().protection_level
            == ProtectionLevel::Dangerous {
            1nat
        } else {
            0nat
        }
    }
}

/// How many of the permissions are granted.
pub open spec fn granted_in(ps: Seq<Permission>) -> nat
    decreases ps.len(),
{
    if ps.len() == 0 {
        0
    } else {
        granted_in(ps.drop_last()) + if ps.last().granted {
            1nat
        } else {
            0nat
        }
    }
}

proof fn lemma_counts_bounded(ps: Seq<Permission>)
    ensures
        dangerous_in(ps) <= ps.len(),
        granted_in(ps) <= ps.len(),
    decreases ps.len(),
{
    if ps.len() > 0 {
        lemma_counts_bounded(ps.drop_last());
    }
}

/// The (dangerous, granted) counts of the detail's status line.
pub fn permission_counts(detail: &PackageDetail) -> (r: (usize, usize))
    ensures
        r.0 == dangerous_in(detail.permissions@),
        r.1 == granted_in(detail.permissions@),
{
    let ps = &detail.permissions;
    let mut d: usize = 0;
    let mut g: usize = 0;
    let mut i: usize = 0;
    assert(ps@.take(0) =~= Seq::<Permission>::empty());
    while i < ps.len()
        invariant
            i <= ps.len(),
            d == dangerous_in(ps@.take(i as int)),
            g == granted_in(ps@.take(i as int)),
        decreases ps.len() - i,
    {
        assert(ps@.take(i + 1).drop_last() =~= ps@.take(i as int));
        proof {
            lemma_counts_bounded(ps@.take(i as int));
        }
        if ps[i].protection_level == ProtectionLevel::Dangerous {
            d += 1;
        }
        if ps[i].granted {
            g += 1;
        }
        i += 1;
    }
    assert(ps@.take(i as int) =~= ps@);
    (d, g)
}

/// A permission row's level column: the level's name in lower case.
pub fn level_text(l: ProtectionLevel) -> (r: &'static str)
    ensures
        l == ProtectionLevel::Normal ==> r@ == "normal"@,
        l == ProtectionLevel::Dangerous ==> r@ == "dangerous"@,
        l == ProtectionLevel::Signature ==> r@ == "signature"@,
        l == ProtectionLevel::Unknown ==> r@ == "unknown"@,
{
    match l {
        ProtectionLevel::Normal => "normal",
        ProtectionLevel::Dangerous => "dangerous",
        ProtectionLevel::Signature => "signature",
        ProtectionLevel::Unknown => "unknown",
    }
}

/// A permission row's icon.
pub fn level_icon(l: ProtectionLevel) -> (r: &'static str)
    ensures
        l == ProtectionLevel::Normal ==> r@ == "🟢"@,
        l == ProtectionLevel::Dangerous ==> r@ == "🔴"@,
        l == ProtectionLevel::Signature ==> r@ == "🔏"@,
        l == ProtectionLevel::Unknown ==> r@ == "❓"@,
{
    match l {
        ProtectionLevel::Normal => "🟢",
        ProtectionLevel::Dangerous => "🔴",
        ProtectionLevel::Signature => "🔏",
        ProtectionLevel::Unknown => "❓",
    }
}

/// A permission row's grant column.
pub fn granted_text(granted: bool) -> (r: &'static str)
    ensures
        granted ==> r@ == "✅  granted"@,
        !granted ==> r@ == "⛔  denied"@,
{
    if granted {
        "✅  granted"
    } else {
        "⛔  denied"
    }
}

/// The words joined with `sep` between them.
pub open spec fn join_with(ws: Seq<Seq<char>>, sep: Seq<char>) -> Seq<char>
    decreases ws.len(),
{
    if ws.len() == 0 {
        seq![]
    } else if ws.len() == 1 {
        ws[0]
    } else {
        join_with(ws.drop_last(), sep) + sep + ws.last()
    }
}

pub open spec fn string_views(ss: Seq<String>) -> Seq<Seq<char>> {
    ss.map_values(|s: String| s@)
}

/// The cells of a component row: its name (with a rocket for the launcher
/// activity), its intent actions joined by `, ` (or a dash), and its
/// permission (or a dash).
pub open spec fn component_row(c: Component, launcher: Option<Seq<char>>) -> (
    Seq<char>,
    Seq<char>,
    Seq<char>,
) {
    (
        if launcher == Some(c.name@) {
            "🚀 "@ + c.name@
        } else {
            c.name@
        },
        if c.intent_actions@.len() == 0 {
            "—"@
        } else {
            join_with(string_views(c.intent_actions@), ", "@)
        },
        match c.permission {
            Some(p) => p@,
            None => "—"@,
        },
    )
}

pub fn component_cells(c: &Component, launcher: Option<&str>) -> (r: (String, String, String))
    ensures
        (r.0@, r.1@, r.2@) == component_row(
            *c,
            match launcher {
                Some(l) => Some(l@),
                None => None,
            },
        ),
{
    let mut name: Vec<char> = Vec::new();
    let is_launcher = match launcher {
        Some(l) => eq_str(&chars_of(c.name.as_str()), l),
        None => false,
    };
    if is_launcher {
        push_str(&mut name, "🚀 ");
    }
    push_str(&mut name, c.name.as_str());
    let mut actions: Vec<char> = Vec::new();
    let acts = &c.intent_actions;
    if acts.len() == 0 {
        push_str(&mut actions, "—");
    } else {
        let ghost sv = string_views(acts@);
        let mut i: usize = 0;
        assert(sv.take(0) =~= Seq::<Seq<char>>::empty());
        while i < acts.len()
            invariant
                i <= acts.len(),
                sv == string_views(acts@),
                actions@ == join_with(sv.take(i as int), ", "@),
            decreases acts.len() - i,
        {
            assert(sv.take(i + 1).drop_last() =~= sv.take(i as int));
            assert(sv.take(i + 1).last() == acts@[i as int]@);
            if i > 0 {
                push_str(&mut actions, ", ");
            } else {
                assert(sv.take(1)[0] == acts@[0]@);
            }
            push_str(&mut actions, acts[i].as_str());
            proof {
                if i == 0 {
                    assert(actions@ =~= join_with(sv.take(1), ", "@));
                }
            }
            i += 1;
        }
        assert(sv.take(i as int) =~= sv);
    }
    let perm = match &c.permission {
        Some(p) => p.clone(),
        None => string_of(chars_of("—").as_slice()),
    };
    (string_of(name.as_slice()), string_of(actions.as_slice()), perm)
}

/// What an empty component tab says: providers never appear in the resolver
/// tables the lists are built from.
pub fn empty_components_message(tab: DetailTab) -> (r: &'static str)
    ensures
        tab == DetailTab::Providers ==> r@
            == "no providers shown — providers have no intent-filter (invoked by\nauthority URI instead), so they never appear in resolver tables"@,
        tab != DetailTab::Providers ==> r@ == "none declared with an intent-filter"@,
{
    match tab {
        DetailTab::Providers => "no providers shown — providers have no intent-filter (invoked by\nauthority URI instead), so they never appear in resolver tables",
        _ => "none declared with an intent-filter",
    }
}

/// Which help line the status bar shows.
#[derive(Debug, Clone, Copy, PartialEq, Eq, Structural)]
pub enum HelpLine {
    /// Keys while typing a search.
    Searching,
    /// Keys of the packages view.
    Packages,
    /// Keys of the other views.
    General,
}

pub fn help_line(view: View, search_active: bool) -> (r: HelpLine)
    ensures
        view == View::Packages && search_active ==> r == HelpLine::Searching,
        view == View::Packages && !search_active ==> r == HelpLine::Packages,
        view != View::Packages ==> r == HelpLine::General,
{
    match view {
        View::Packages => if search_active {
            HelpLine::Searching
        } else {
            HelpLine::Packages
        },
        _ => HelpLine::General,
    }
}

/// The position of the screen's tab in the tab bar.
pub fn view_index(view: View) -> (r: usize)
    ensures
        view == View::Overview ==> r == 0,
        view == View::Packages ==> r == 1,
        view == View::Logs ==> r == 2,
{
    match view {
        View::Overview => 0,
        View::Packages => 1,
        View::Logs => 2,
    }
}

/// The storage entry the overview shows: the first one mounted on `/data`,
/// else the first one.
pub fn overview_storage_entry(entries: &Vec<StorageEntry>) -> (r: Option<usize>)
    ensures
        entries@.len() == 0 ==> r is None,
        (exists|i: int| 0 <= i < entries@.len() && (#[trigger] entries@[i]).mounted_on@ == "/data"@)
            ==> (r matches Some(i) && i < entries@.len() && entries@[i as int].mounted_on@ == "/data"@
            && forall|j: int| 0 <= j < i ==> (#[trigger] entries@[j]).mounted_on@ != "/data"@),
        entries@.len() > 0 && !(exists|i: int|
            0 <= i < entries@.len() && (#[trigger] entries@[i]).mounted_on@ == "/data"@) ==> r
            == Some(0usize),
{
    let mut i: usize = 0;
    while i < entries.len()
        invariant
            i <= entries.len(),
            forall|j: int| 0 <= j < i ==> (#[trigger] entries@[j]).mounted_on@ != "/data"@,
        decreases entries.len() - i,
    {
        if eq_str(&chars_of(entries[i].mounted_on.as_str()), "/data") {
            return Some(i);
        }
        i += 1;
    }
    if entries.len() == 0 {
        None
    } else {
        Some(0)
    }
}

/// The overview's model row: `<model>  (<manufacturer> / <brand>)`.
pub fn model_row(d: &DeviceInfo) -> (r: String)
    ensures
        r@ == d.model@ + "  ("@ + d.manufacturer@ + " / "@ + d.brand@ + ")"@,
{
    let mut out: Vec<char> = Vec::new();
    push_str(&mut out, d.model.as_str());
    push_str(&mut out, "  (");
    push_str(&mut out, d.manufacturer.as_str());
    push_str(&mut out, " / ");
    push_str(&mut out, d.brand.as_str());
    push_str(&mut out, ")");
    string_of(out.as_slice())
}

/// The overview's Android row: `<release> (API <sdk>)`.
pub fn android_row(d: &DeviceInfo) -> (r: String)
    ensures
        r@ == d.android_release@ + " (API "@ + decimal(d.sdk as nat) + ")"@,
{
    let mut out: Vec<char> = Vec::new();
    push_str(&mut out, d.android_release.as_str());
    push_str(&mut out, " (API ");
    push_decimal(&mut out, d.sdk as u64);
    push_str(&mut out, ")");
    string_of(out.as_slice())
}

/// `s`, or `?` when it is missing or empty.
pub open spec fn or_question(s: Option<Seq<char>>) -> Seq<char> {
    match s {
        Some(v) => if v.len() > 0 {
            v
        } else {
            "?"@
        },
        None => "?"@,
    }
}

/// The overview's CPU row: `<abi>  ·  <n> cores  ·  <hardware>`, with `?`
/// for an ABI or hardware name that is unknown or empty. The ABI comes from
/// the device's identity, which may not have arrived yet.
pub fn cpu_row(device: Option<&DeviceInfo>, cpu: &CpuInfo) -> (r: String)
    ensures
        r@ == or_question(
            match device {
                Some(d) => Some(d.abi@),
                None => None,
            },
        ) + "  ·  "@ + decimal(cpu.core_count as nat) + " cores  ·  "@ + or_question(
            Some(cpu.hardware@),
        ),
{
    let mut out: Vec<char> = Vec::new();
    match device {
        Some(d) => if d.abi.as_str().is_empty() {
            push_str(&mut out, "?");
        } else {
            push_str(&mut out, d.abi.as_str());
        },
        None => push_str(&mut out, "?"),
    }
    push_str(&mut out, "  ·  ");
    push_decimal(&mut out, cpu.core_count as u64);
    push_str(&mut out, " cores  ·  ");
    if cpu.hardware.as_str().is_empty() {
        push_str(&mut out, "?");
    } else {
        push_str(&mut out, cpu.hardware.as_str());
    }
    string_of(out.as_slice())
}

/// The overview's screen row: `<width>x<height> @ <dpi> dpi`.
pub fn screen_row(s: &ScreenInfo) -> (r: String)
    ensures
        r@ == decimal(s.width as nat) + "x"@ + decimal(s.height as nat) + " @ "@ + decimal(
            s.density_dpi as nat,
        ) + " dpi"@,
{
    let mut out: Vec<char> = Vec::new();
    push_decimal(&mut out, s.width as u64);
    push_str(&mut out, "x");
    push_decimal(&mut out, s.height as u64);
    push_str(&mut out, " @ ");
    push_decimal(&mut out, s.density_dpi as u64);
    push_str(&mut out, " dpi");
    string_of(out.as_slice())
}

/// An overview row for one text field: the field when it is non-empty;
/// `missing` when the command answered without it; `pending` (the row for a
/// command that has not answered) otherwise.
pub fn field_row(value: Option<&str>, answered: bool, missing: &str, pending: String) -> (r: String)
    ensures
        (value matches Some(v) && v@.len() > 0) ==> r@ == value.unwrap()@,
        !(value matches Some(v) && v@.len() > 0) && answered ==> r@ == missing@,
        !(value matches Some(v) && v@.len() > 0) && !answered ==> r@ == pending@,
{
    match value {
        Some(v) => if !v.is_empty() {
            return string_of(chars_of(v).as_slice());
        },
        None => {},
    }
    if answered {
        string_of(chars_of(missing).as_slice())
    } else {
        pending
    }
}

/// An overview row whose data has not arrived: the error of the last poll
/// (cut to 50 bytes), or a note that it is being fetched.
pub fn pending_text(err: Option<&str>) -> (r: String)
    requires
        err matches Some(e) ==> byte_len(e@) <= 50 || exists|k: int|
            0 <= k <= e@.len() && byte_len(e@.take(k)) == 50,
    ensures
        err is None ==> r@ == "⏳  fetching…"@,
        err matches Some(e) ==> exists|t: Seq<char>|
            r@ == "⚠️  error: "@ + t && (byte_len(e@) <= 50 ==> t == e@) && (byte_len(e@) > 50
                ==> exists|k: int|
                0 <= k <= e@.len() && byte_len(e@.take(k)) == 50 && t == e@.take(k) + "…"@),
{
    match err {
        Some(e) => {
            let t = truncate(e, 50);
            let mut out: Vec<char> = Vec::new();
            push_str(&mut out, "⚠️  error: ");
            push_str(&mut out, t.as_str());
            string_of(out.as_slice())
        },
        None => string_of(chars_of("⏳  fetching…").as_slice()),
    }
}

} // verus!
