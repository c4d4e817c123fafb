//! Properties of the library that span several functions or all inputs.

use vstd::prelude::*;

use crate::command::catalog::last_n;
use crate::command::transport::mock_lookup;
use crate::command::validate::valid_package_name;
use crate::text::{
    contains, find, is_ascii_alnum, lemma_find, lines, split_on, trim, trim_start, CharClass,
};
use crate::parser::battery::{battery_map, is_battery_of, num_or};
use crate::parser::cpuinfo::cpu_fold;
use crate::parser::model::{
    priority_of, BatteryInfo, BatteryStatus, LogPriority, PackageDetail, PackageRef,
};
use crate::parser::package_dump::{header_name, is_detail_of, lemma_detail_unique, same_detail};
use crate::tui::{
    clamped, detail_subject, err_of, fetch_needed, ok_of, tab_at, tab_index, view_after, App,
    DetailTab, View,
};
use vstd::view::View as _;

verus! {

/// Registering a command and then looking up its id finds that command; every
/// other id keeps what it had.
pub proof fn lemma_register_then_get<C>(m: Map<Seq<char>, C>, id: Seq<char>, cmd: C, other: Seq<char>)
    requires
        other != id,
    ensures
        m.insert(id, cmd).dom().contains(id),
        m.insert(id, cmd)[id] == cmd,
        m.insert(id, cmd).dom().contains(other) == m.dom().contains(other),
        m.dom().contains(other) ==> m.insert(id, cmd)[other] == m[other],
{
}

/// Cycling the detail tabs forward then back (or back then forward) returns
/// to the same tab, and five steps forward go all the way round.
pub proof fn lemma_tabs_cycle(t: DetailTab)
    ensures
        tab_at(tab_index(tab_at(tab_index(t) + 1)) + 4) == t,
        tab_at(tab_index(tab_at(tab_index(t) + 4)) + 1) == t,
        tab_at(
            tab_index(
                tab_at(
                    tab_index(tab_at(tab_index(tab_at(tab_index(tab_at(tab_index(t) + 1)) + 1)) + 1))
                        + 1,
                ),
            ) + 1,
        ) == t,
{
}

/// Three steps through the screens come back to the same screen.
pub proof fn lemma_views_cycle(v: View)
    ensures
        view_after(view_after(view_after(v))) == v,
        view_after(v) != v,
{
}

/// A moved selection always lands on a row of the list.
pub proof fn lemma_clamped_in_range(current: int, delta: int, len: int)
    requires
        len > 0,
    ensures
        0 <= clamped(current, delta, len) < len,
        0 <= current + delta < len ==> clamped(current, delta, len) == current + delta,
{
}

/// After recording a result for `id`, reading `id` gives that result (its
/// output when it succeeded, its error when it failed), and every other id
/// reads as before.
pub proof fn lemma_update_then_read<V>(
    s: Map<Seq<char>, Result<V, String>>,
    id: Seq<char>,
    r: Result<V, String>,
    other: Seq<char>,
)
    requires
        other != id,
    ensures
        ok_of(s.insert(id, r), id) == match r {
            Ok(v) => Some(v),
            Err(_) => None::<V>,
        },
        err_of(s.insert(id, r), id) == match r {
            Ok(_) => None::<Seq<char>>,
            Err(e) => Some(e@),
        },
        ok_of(s.insert(id, r), other) == ok_of(s, other),
        err_of(s.insert(id, r), other) == err_of(s, other),
{
}

/// A pair added to a mock transport answers a command only when no earlier
/// pair does: earlier pairs keep precedence.
pub proof fn lemma_mock_with(
    pairs: Seq<(Seq<char>, Seq<char>)>,
    needle: Seq<char>,
    response: Seq<char>,
    cmd: Seq<char>,
)
    ensures
        mock_lookup(pairs.push((needle, response)), cmd) == match mock_lookup(pairs, cmd) {
            Some(x) => Some(x),
            None => if contains(cmd, needle) {
                Some(response)
            } else {
                None
            },
        },
    decreases pairs.len(),
{
    if pairs.len() > 0 {
        lemma_mock_with(pairs.drop_first(), needle, response, cmd);
        assert(pairs.push((needle, response)).drop_first() =~= pairs.drop_first().push(
            (needle, response),
        ));
    } else {
        assert(pairs.push((needle, response)).drop_first() =~= pairs);
    }
}

/// Every character of `s` other than `c` lies in one of its pieces.
proof fn lemma_split_covers(s: Seq<char>, c: char, x: int)
    requires
        0 <= x < s.len(),
        s[x] != c,
    ensures
        exists|k: int, j: int|
            0 <= k < split_on(s, c).len() && 0 <= j < split_on(s, c)[k].len()
                && #[trigger] split_on(s, c)[k][j] == s[x],
    decreases s.len(),
{
    lemma_find(s, CharClass::Is(c));
    match find(s, CharClass::Is(c)) {
        Some(i) => {
            let parts = split_on(s, c);
            if x < i {
                assert(parts[0] == s.take(i));
                assert(parts[0][x] == s[x]);
            } else {
                assert(x != i);
                lemma_split_covers(s.skip(i + 1), c, x - i - 1);
                let rest = split_on(s.skip(i + 1), c);
                let (k, j) = choose|k: int, j: int|
                    0 <= k < rest.len() && 0 <= j < rest[k].len() && #[trigger] rest[k][j] == s.skip(
                        i + 1,
                    )[x - i - 1];
                assert(parts[k + 1] == rest[k]);
                assert(parts[k + 1][j] == s[x]);
            }
        },
        None => {
            assert(split_on(s, c)[0][x] == s[x]);
        },
    }
}

/// A package name that passes validation holds nothing but ASCII letters,
/// digits, `_` and `.`: no shell metacharacter, quote or white space can
/// reach the device's shell through it.
pub proof fn lemma_valid_package_name_chars(p: Seq<char>, x: int)
    requires
        valid_package_name(p),
        0 <= x < p.len(),
    ensures
        is_ascii_alnum(p[x]) || p[x] == '_' || p[x] == '.',
{
    if p[x] != '.' {
        lemma_split_covers(p, '.', x);
        let parts = split_on(p, '.');
        let (k, j) = choose|k: int, j: int|
            0 <= k < parts.len() && 0 <= j < parts[k].len() && #[trigger] parts[k][j] == p[x];
        assert(crate::command::validate::package_segment_ok(parts[k]));
    }
}

/// Once the package under the cursor is pending, the detail pane needs no
/// further fetch for it: syncing again does nothing until the cursor moves to
/// another package.
pub proof fn lemma_sync_settles<V>(app: App<V>, visible: Seq<PackageRef>, n: String)
    requires
        app.packages.selected < visible.len(),
        app.packages.pending == Some(n),
        n@ == visible[app.packages.selected as int].name@,
    ensures
        !fetch_needed(app, visible),
{
    assert(detail_subject(app.packages) == Some(n@));
}

/// A snapshot limited to `n` entries holds the last `n` entries (or all of
/// them when there are fewer).
pub proof fn lemma_last_n<T>(s: Seq<T>, n: usize)
    ensures
        last_n(s, Some(n)).len() == if s.len() < n {
            s.len()
        } else {
            n as nat
        },
        forall|i: int|
            0 <= i < last_n(s, Some(n)).len() ==> #[trigger] last_n(s, Some(n))[i] == s[s.len()
                - last_n(s, Some(n)).len() + i],
{
}

/// Parsing is a function of its input: two results of `parse_for` on the
/// same package name and the same dump are the same detail, the launcher
/// activity included.
pub proof fn lemma_parse_for_deterministic(
    d1: PackageDetail,
    d2: PackageDetail,
    pkg: Seq<char>,
    raw: Seq<char>,
)
    requires
        is_detail_of(d1, pkg, raw),
        is_detail_of(d2, pkg, raw),
    ensures
        same_detail(d1, d2),
{
    lemma_detail_unique(d1, d2, pkg, raw);
}

/// `parse` gives what `parse_for` gives for the name in the dump's first
/// `Package [<name>]` header line (the empty name when there is none).
pub proof fn lemma_parse_is_parse_for_header(parsed: PackageDetail, for_header: PackageDetail, raw: Seq<char>)
    requires
        is_detail_of(parsed, header_name(lines(raw)), raw),
        is_detail_of(for_header, header_name(lines(raw)), raw),
    ensures
        same_detail(parsed, for_header),
{
    lemma_detail_unique(parsed, for_header, header_name(lines(raw)), raw);
}

/// Each of logcat's priority letters names its own level: `V` verbose, `D`
/// debug, `W` warning, `E` error, `F` fatal, and `I` (or any other
/// character) info. No two of the letters V, D, I, W, E, F share a level.
pub proof fn lemma_priority_letters(c: char)
    ensures
        (priority_of(c) == LogPriority::Verbose) <==> c == 'V',
        (priority_of(c) == LogPriority::Debug) <==> c == 'D',
        (priority_of(c) == LogPriority::Warn) <==> c == 'W',
        (priority_of(c) == LogPriority::Error) <==> c == 'E',
        (priority_of(c) == LogPriority::Fatal) <==> c == 'F',
        (priority_of(c) == LogPriority::Info) <==> !(c == 'V' || c == 'D' || c == 'W' || c == 'E'
            || c == 'F'),
{
}

/// The battery status is what `dumpsys battery`'s status code means: 2
/// charging, 3 discharging, 4 not charging, 5 full; any other code, or no
/// status line at all, is unknown.
pub proof fn lemma_battery_status_code(b: BatteryInfo, raw: Seq<char>)
    requires
        is_battery_of(b, raw),
    ensures
        ({
            let code = num_or(battery_map(raw), "status"@, 1);
            &&& (b.status == BatteryStatus::Charging) <==> code == 2
            &&& (b.status == BatteryStatus::Discharging) <==> code == 3
            &&& (b.status == BatteryStatus::NotCharging) <==> code == 4
            &&& (b.status == BatteryStatus::Full) <==> code == 5
            &&& (b.status == BatteryStatus::Unknown) <==> !(2 <= code <= 5)
        }),
{
}

/// A trimmed `/proc/cpuinfo` line that names one core: it starts with
/// exactly `processor` (lower case), and after optional white space a colon
/// follows.
pub open spec fn names_core(t: Seq<char>) -> bool {
    &&& t.len() >= 9
    &&& t.take(9) == "processor"@
    &&& trim_start(t.skip(9)).len() > 0
    &&& trim_start(t.skip(9))[0] == ':'
}

/// The core count grows by one for each line that names a core and for no
/// other line: a `Processor : <model>` line (capital P), a `Hardware` line
/// or anything else leaves it as it was. No lines, no cores.
pub proof fn lemma_cpu_core_count(ls: Seq<Seq<char>>, l: Seq<char>)
    ensures
        cpu_fold(Seq::<Seq<char>>::empty()).0 == 0,
        cpu_fold(ls.push(l)).0 == cpu_fold(ls).0 + if names_core(trim(l)) {
            1int
        } else {
            0int
        },
{
    reveal_strlit("processor");
    assert(ls.push(l).drop_last() =~= ls);
    assert(ls.push(l).last() == l);
}

} // verus!
