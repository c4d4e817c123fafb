//! State of the terminal UI: the current view, the latest result per command
//! id, and the selection state of the packages view.
//!
//! Drawing and key handling belong to the program that owns the terminal;
//! everything they decide with is here.

use vstd::prelude::*;
use vstd::view::View as _;

use fuzzy_matcher::skim::SkimMatcherV2;
use fuzzy_matcher::FuzzyMatcher;

use crate::engine::registry::position;
use crate::parser::model::{Component, PackageDetail, PackageRef, PackageRefView};
use crate::text::{
    byte_len, char_width, chars_of, eq_chars, eq_str, lemma_byte_len_mono, lemma_byte_len_push,
    push_str, string_of,
};

verus! {

/// The top-level screens, cycled in this order.
#[derive(Debug, Clone, Copy, PartialEq, Eq, Structural)]
pub enum View {
    Overview,
    Packages,
    Logs,
}

pub open spec fn view_title(v: View) -> Seq<char> {
    match v {
        View::Overview => "Overview"@,
        View::Packages => "Packages"@,
        View::Logs => "Logs"@,
    }
}

/// The screen after `v`.
pub open spec fn view_after(v: View) -> View {
    match v {
        View::Overview => View::Packages,
        View::Packages => View::Logs,
        View::Logs => View::Overview,
    }
}

impl View {
    pub fn title(&self) -> (r: &'static str)
        ensures
            r@ == view_title(*self),
    {
        match self {
            View::Overview => "Overview",
            View::Packages => "Packages",
            View::Logs => "Logs",
        }
    }
}

/// Which sub-pane of the package detail view is currently shown, cycled with
/// `←`/`→`.
#[derive(Debug, Clone, Copy, PartialEq, Eq, Structural)]
pub enum DetailTab {
    Permissions,
    Activities,
    Services,
    Receivers,
    Providers,
}

/// The position of a tab in the cycle.
pub open spec fn tab_index(t: DetailTab) -> int {
    match t {
        DetailTab::Permissions => 0,
        DetailTab::Activities => 1,
        DetailTab::Services => 2,
        DetailTab::Receivers => 3,
        DetailTab::Providers => 4,
    }
}

/// The tab at position `i` of the cycle (taken modulo its length).
pub open spec fn tab_at(i: int) -> DetailTab {
    let k = i % 5;
    if k == 0 {
        DetailTab::Permissions
    } else if k == 1 {
        DetailTab::Activities
    } else if k == 2 {
        DetailTab::Services
    } else if k == 3 {
        DetailTab::Receivers
    } else {
        DetailTab::Providers
    }
}

pub open spec fn tab_title(t: DetailTab) -> Seq<char> {
    match t {
        DetailTab::Permissions => "Permissions"@,
        DetailTab::Activities => "Activities"@,
        DetailTab::Services => "Services"@,
        DetailTab::Receivers => "Receivers"@,
        DetailTab::Providers => "Providers"@,
    }
}

impl Default for DetailTab {
    fn default() -> (r: Self)
        ensures
            r == DetailTab::Permissions,
    {
        DetailTab::Permissions
    }
}

impl DetailTab {
    pub fn title(self) -> (r: &'static str)
        ensures
            r@ == tab_title(self),
    {
        match self {
            DetailTab::Permissions => "Permissions",
            DetailTab::Activities => "Activities",
            DetailTab::Services => "Services",
            DetailTab::Receivers => "Receivers",
            DetailTab::Providers => "Providers",
        }
    }

    /// The next tab, wrapping from the last to the first.
    pub fn next(self) -> (r: Self)
        ensures
            r == tab_at(tab_index(self) + 1),
    {
        match self {
            DetailTab::Permissions => DetailTab::Activities,
            DetailTab::Activities => DetailTab::Services,
            DetailTab::Services => DetailTab::Receivers,
            DetailTab::Receivers => DetailTab::Providers,
            DetailTab::Providers => DetailTab::Permissions,
        }
    }

    /// The previous tab, wrapping from the first to the last.
    pub fn prev(self) -> (r: Self)
        ensures
            r == tab_at(tab_index(self) + 4),
    {
        match self {
            DetailTab::Permissions => DetailTab::Providers,
            DetailTab::Activities => DetailTab::Permissions,
            DetailTab::Services => DetailTab::Activities,
            DetailTab::Receivers => DetailTab::Services,
            DetailTab::Providers => DetailTab::Receivers,
        }
    }

    /// The component list this tab shows, or `None` for `Permissions` (which
    /// shows the package's permissions instead).
    pub fn components(self, detail: &PackageDetail) -> (r: Option<&[Component]>)
        ensures
            match self {
                DetailTab::Permissions => r is None,
                DetailTab::Activities => r matches Some(s) && s@ == detail.activities@,
                DetailTab::Services => r matches Some(s) && s@ == detail.services@,
                DetailTab::Receivers => r matches Some(s) && s@ == detail.receivers@,
                DetailTab::Providers => r matches Some(s) && s@ == detail.providers@,
            },
    {
        match self {
            DetailTab::Permissions => None,
            DetailTab::Activities => Some(detail.activities.as_slice()),
            DetailTab::Services => Some(detail.services.as_slice()),
            DetailTab::Receivers => Some(detail.receivers.as_slice()),
            DetailTab::Providers => Some(detail.providers.as_slice()),
        }
    }
}

/// `current + delta` kept within `0..len` (for a non-empty list).
pub open spec fn clamped(current: int, delta: int, len: int) -> int {
    let n = current + delta;
    if n < 0 {
        0
    } else if n > len - 1 {
        len - 1
    } else {
        n
    }
}

/// Selection and on-demand detail-fetch state for the packages view. The
/// list itself isn't stored here: it is derived from the `"package.list"`
/// snapshot each draw.
#[derive(Debug)]
pub struct PackagesState {
    pub selected: usize,
    /// Package name currently being fetched via `"package.detail"`, if any.
    pub pending: Option<String>,
    pub detail: Option<PackageDetail>,
    pub detail_error: Option<String>,
    /// Fuzzy-search query, live-filters the list as it's typed.
    pub search: String,
    /// Whether keystrokes are currently being captured into `search` rather
    /// than treated as list navigation.
    pub search_active: bool,
    /// Selected/scrolled-to row in the permissions table of the detail pane.
    pub perm_selected: usize,
    /// Which sub-pane of the detail view is active.
    pub detail_tab: DetailTab,
    /// Selected/scrolled-to row in the active component table (Activities
    /// etc). Kept separate from `perm_selected` so switching tabs doesn't
    /// disturb each other's scroll position.
    pub component_selected: usize,
}

impl Default for PackagesState {
    fn default() -> (r: Self)
        ensures
            r.selected == 0,
            r.pending is None,
            r.detail is None,
            r.detail_error is None,
            r.search@.len() == 0,
            !r.search_active,
            r.perm_selected == 0,
            r.detail_tab == DetailTab::Permissions,
            r.component_selected == 0,
    {
        PackagesState {
            selected: 0,
            pending: None,
            detail: None,
            detail_error: None,
            search: String::new(),
            search_active: false,
            perm_selected: 0,
            detail_tab: DetailTab::Permissions,
            component_selected: 0,
        }
    }
}

/// `current + delta`, clamped to `0..len`; `len` is not 0.
fn clamp_move(current: usize, delta: isize, len: usize) -> (r: usize)
    requires
        len > 0,
        current <= isize::MAX,
        len <= isize::MAX,
        current + delta <= isize::MAX,
    ensures
        r == clamped(current as int, delta as int, len as int),
{
    let n: isize = current as isize + delta;
    let hi: isize = len as isize - 1;
    if n < 0 {
        0
    } else if n > hi {
        hi as usize
    } else {
        n as usize
    }
}

impl PackagesState {
    /// Everything but the list selection is the same in `a` and `b`.
    pub open spec fn same_but_selected(a: &Self, b: &Self) -> bool {
        &&& a.pending == b.pending
        &&& a.detail == b.detail
        &&& a.detail_error == b.detail_error
        &&& a.search == b.search
        &&& a.search_active == b.search_active
        &&& a.perm_selected == b.perm_selected
        &&& a.detail_tab == b.detail_tab
        &&& a.component_selected == b.component_selected
    }

    /// Moves the package selection by `delta` rows, staying within a list of
    /// `len` rows; nothing changes when the list is empty.
    pub fn move_selection(&mut self, delta: isize, len: usize)
        requires
            old(self).selected <= isize::MAX,
            len <= isize::MAX,
            old(self).selected + delta <= isize::MAX,
        ensures
            Self::same_but_selected(final(self), old(self)),
            len == 0 ==> final(self).selected == old(self).selected,
            len > 0 ==> final(self).selected == clamped(
                old(self).selected as int,
                delta as int,
                len as int,
            ),
    {
        if len == 0 {
            return;
        }
        self.selected = clamp_move(self.selected, delta, len);
    }

    /// Moves the permission-table selection like [`Self::move_selection`].
    pub fn move_perm_selection(&mut self, delta: isize, len: usize)
        requires
            old(self).perm_selected <= isize::MAX,
            len <= isize::MAX,
            old(self).perm_selected + delta <= isize::MAX,
        ensures
            final(self).selected == old(self).selected,
            final(self).pending == old(self).pending,
            final(self).detail == old(self).detail,
            final(self).detail_error == old(self).detail_error,
            final(self).search == old(self).search,
            final(self).search_active == old(self).search_active,
            final(self).detail_tab == old(self).detail_tab,
            final(self).component_selected == old(self).component_selected,
            len == 0 ==> final(self).perm_selected == old(self).perm_selected,
            len > 0 ==> final(self).perm_selected == clamped(
                old(self).perm_selected as int,
                delta as int,
                len as int,
            ),
    {
        if len == 0 {
            return;
        }
        self.perm_selected = clamp_move(self.perm_selected, delta, len);
    }

    /// Moves the component-table selection like [`Self::move_selection`].
    pub fn move_component_selection(&mut self, delta: isize, len: usize)
        requires
            old(self).component_selected <= isize::MAX,
            len <= isize::MAX,
            old(self).component_selected + delta <= isize::MAX,
        ensures
            final(self).selected == old(self).selected,
            final(self).pending == old(self).pending,
            final(self).detail == old(self).detail,
            final(self).detail_error == old(self).detail_error,
            final(self).search == old(self).search,
            final(self).search_active == old(self).search_active,
            final(self).detail_tab == old(self).detail_tab,
            final(self).perm_selected == old(self).perm_selected,
            len == 0 ==> final(self).component_selected == old(self).component_selected,
            len > 0 ==> final(self).component_selected == clamped(
                old(self).component_selected as int,
                delta as int,
                len as int,
            ),
    {
        if len == 0 {
            return;
        }
        self.component_selected = clamp_move(self.component_selected, delta, len);
    }

    /// Switches to the next (or previous) detail tab and resets the
    /// component selection.
    pub fn cycle_tab(&mut self, forward: bool)
        ensures
            forward ==> final(self).detail_tab == tab_at(tab_index(old(self).detail_tab) + 1),
            !forward ==> final(self).detail_tab == tab_at(tab_index(old(self).detail_tab) + 4),
            final(self).component_selected == 0,
            final(self).selected == old(self).selected,
            final(self).pending == old(self).pending,
            final(self).detail == old(self).detail,
            final(self).detail_error == old(self).detail_error,
            final(self).search == old(self).search,
            final(self).search_active == old(self).search_active,
            final(self).perm_selected == old(self).perm_selected,
    {
        self.detail_tab = if forward {
            self.detail_tab.next()
        } else {
            self.detail_tab.prev()
        };
        self.component_selected = 0;
    }

    /// Takes the outcome of fetching `name`'s detail. A result for a package
    /// other than the one pending is dropped (the user has navigated away);
    /// otherwise the fetch is no longer pending, both table selections go
    /// back to the top, and the detail or the error is kept.
    pub fn apply_detail_result(&mut self, name: &str, result: Result<PackageDetail, String>)
        ensures
            !(old(self).pending matches Some(p) && p@ == name@) ==> *final(self) == *old(self),
            (old(self).pending matches Some(p) && p@ == name@) ==> {
                &&& final(self).pending is None
                &&& final(self).perm_selected == 0
                &&& final(self).component_selected == 0
                &&& final(self).selected == old(self).selected
                &&& final(self).search == old(self).search
                &&& final(self).search_active == old(self).search_active
                &&& final(self).detail_tab == old(self).detail_tab
                &&& match result {
                    Ok(d) => final(self).detail == Some(d) && final(self).detail_error is None,
                    Err(e) => final(self).detail is None && final(self).detail_error == Some(e),
                }
            },
    {
        let matches = match &self.pending {
            Some(p) => eq_str(&chars_of(p.as_str()), name),
            None => false,
        };
        if !matches {
            return;
        }
        self.pending = None;
        self.perm_selected = 0;
        self.component_selected = 0;
        match result {
            Ok(detail) => {
                self.detail = Some(detail);
                self.detail_error = None;
            },
            Err(e) => {
                self.detail = None;
                self.detail_error = Some(e);
            },
        }
    }
}

/// The latest result per command id: its output, or the error message of
/// its last run.
///
/// The entries are a `Vec` with no id repeated rather than a hash map: a map
/// keyed by strings gives the verifier nothing to reason with, while this
/// invariant states what the map would give (one result per id, the newest).
pub struct Snapshots<V> {
    entries: Vec<(String, Result<V, String>)>,
}

/// The keys of `es`, in order.
pub open spec fn keys_of<V>(es: Seq<(String, Result<V, String>)>) -> Seq<Seq<char>> {
    es.map_values(|e: (String, Result<V, String>)| e.0@)
}

/// The results of `es` by key.
pub open spec fn map_of_entries<V>(es: Seq<(String, Result<V, String>)>) -> Map<
    Seq<char>,
    Result<V, String>,
> {
    Map::new(|k: Seq<char>| keys_of(es).contains(k), |k: Seq<char>| es[position(keys_of(es), k)].1)
}

/// Index of `id` among the keys of `es`, if it occurs.
fn snapshot_index<V>(es: &Vec<(String, Result<V, String>)>, id: &str) -> (r: Option<usize>)
    ensures
        match r {
            Some(i) => i < es@.len() && keys_of(es@)[i as int] == id@,
            None => !keys_of(es@).contains(id@),
        },
{
    let key = chars_of(id);
    let mut i: usize = 0;
    while i < es.len()
        invariant
            i <= es.len(),
            key@ == id@,
            forall|j: int| 0 <= j < i ==> keys_of(es@)[j] != id@,
        decreases es.len() - i,
    {
        let here = chars_of(es[i].0.as_str());
        assert(keys_of(es@)[i as int] == here@);
        if eq_chars(&here, &key) {
            return Some(i);
        }
        i += 1;
    }
    None
}

impl<V> Snapshots<V> {
    /// No id occurs twice.
    #[verifier::type_invariant]
    spec fn wf(self) -> bool {
        keys_of(self.entries@).no_duplicates()
    }

    pub closed spec fn view(&self) -> Map<Seq<char>, Result<V, String>> {
        map_of_entries(self.entries@)
    }

    pub fn new() -> (r: Self)
        ensures
            r@ == Map::<Seq<char>, Result<V, String>>::empty(),
    {
        let r = Snapshots { entries: Vec::new() };
        assert(r@ =~= Map::<Seq<char>, Result<V, String>>::empty());
        r
    }

    /// Records `result` as the latest for `id`, replacing any earlier one.
    pub fn insert(&mut self, id: String, result: Result<V, String>)
        ensures
            final(self)@ == old(self)@.insert(id@, result),
    {
        proof {
            use_type_invariant(&*self);
        }
        let mut entries: Vec<(String, Result<V, String>)> = Vec::new();
        std::mem::swap(&mut entries, &mut self.entries);
        Self::put(&mut entries, id, result);
        self.entries = entries;
    }

    /// Sets the result under `id` in `entries`, in place of an earlier one or
    /// at the end.
    fn put(entries: &mut Vec<(String, Result<V, String>)>, id: String, result: Result<V, String>)
        requires
            keys_of(old(entries)@).no_duplicates(),
        ensures
            keys_of(final(entries)@).no_duplicates(),
            map_of_entries(final(entries)@) == map_of_entries(old(entries)@).insert(id@, result),
    {
        let ghost k = id@;
        let ghost ks = keys_of(entries@);
        let ghost old_es = entries@;
        match snapshot_index(entries, id.as_str()) {
            Some(i) => {
                entries.set(i, (id, result));
                proof {
                    assert(keys_of(entries@) =~= ks);
                    assert(map_of_entries(entries@) =~= map_of_entries(old_es).insert(k, result)) by {
                        assert forall|kk: Seq<char>| #[trigger] keys_of(entries@).contains(kk) implies map_of_entries(entries@)[kk]
                            == map_of_entries(old_es).insert(k, result)[kk] by {
                            let p = position(ks, kk);
                            assert(0 <= p < ks.len() && ks[p] == kk);
                            lemma_unique_position(ks, p);
                            lemma_unique_position(ks, i as int);
                        }
                    }
                }
            },
            None => {
                entries.push((id, result));
                proof {
                    assert(keys_of(entries@) =~= ks.push(k));
                    assert(keys_of(entries@).no_duplicates());
                    assert(map_of_entries(entries@) =~= map_of_entries(old_es).insert(k, result)) by {
                        assert forall|kk: Seq<char>| #[trigger] keys_of(entries@).contains(kk) implies map_of_entries(entries@)[kk]
                            == map_of_entries(old_es).insert(k, result)[kk] by {
                            let p = position(keys_of(entries@), kk);
                            assert(0 <= p < keys_of(entries@).len() && keys_of(entries@)[p] == kk);
                            lemma_unique_position(keys_of(entries@), p);
                            if p < ks.len() {
                                lemma_unique_position(ks, p);
                            }
                        }
                        assert forall|kk: Seq<char>| keys_of(entries@).contains(kk) <==> map_of_entries(old_es).insert(
                            k,
                            result,
                        ).dom().contains(kk) by {
                            if ks.contains(kk) {
                                let p = choose|p: int| 0 <= p < ks.len() && ks[p] == kk;
                                assert(keys_of(entries@)[p] == kk);
                            }
                            if keys_of(entries@).contains(kk) && kk != k {
                                let p = choose|p: int| 0 <= p < keys_of(entries@).len() && keys_of(entries@)[p] == kk;
                                assert(ks[p] == kk);
                            }
                            if kk == k {
                                assert(keys_of(entries@)[ks.len() as int] == k);
                            }
                        }
                    }
                }
            },
        }
    }

    /// The latest result for `id`, if there is one.
    pub fn get(&self, id: &str) -> (r: Option<&Result<V, String>>)
        ensures
            match r {
                Some(x) => self@.dom().contains(id@) && *x == self@[id@],
                None => !self@.dom().contains(id@),
            },
    {
        proof {
            use_type_invariant(self);
        }
        match snapshot_index(&self.entries, id) {
            Some(i) => {
                proof {
                    lemma_unique_position(keys_of(self.entries@), i as int);
                }
                Some(&self.entries[i].1)
            },
            None => None,
        }
    }
}

proof fn lemma_unique_position(ks: Seq<Seq<char>>, i: int)
    requires
        ks.no_duplicates(),
        0 <= i < ks.len(),
    ensures
        position(ks, ks[i]) == i,
{
    let p = position(ks, ks[i]);
    assert(0 <= p < ks.len() && ks[p] == ks[i]);
}

/// The output of `id`'s last successful run, if its last run succeeded.
pub open spec fn ok_of<V>(s: Map<Seq<char>, Result<V, String>>, id: Seq<char>) -> Option<V> {
    if s.dom().contains(id) {
        match s[id] {
            Ok(v) => Some(v),
            Err(_) => None,
        }
    } else {
        None
    }
}

/// The error message of `id`'s last run, if it failed.
pub open spec fn err_of<V>(s: Map<Seq<char>, Result<V, String>>, id: Seq<char>) -> Option<
    Seq<char>,
> {
    if s.dom().contains(id) {
        match s[id] {
            Ok(_) => None,
            Err(e) => Some(e@),
        }
    } else {
        None
    }
}

/// Application state: the current view, the latest output per command id,
/// and the packages view's state.
pub struct App<V> {
    pub running: bool,
    pub view: View,
    /// Latest output per command id, or the error of its last run.
    pub snapshots: Snapshots<V>,
    pub packages: PackagesState,
}

impl<V> App<V> {
    pub fn new() -> (r: Self)
        ensures
            r.running,
            r.view == View::Overview,
            r.snapshots@ == Map::<Seq<char>, Result<V, String>>::empty(),
            r.packages.selected == 0,
            r.packages.pending is None,
            r.packages.detail is None,
            r.packages.detail_error is None,
            r.packages.search@.len() == 0,
            !r.packages.search_active,
            r.packages.perm_selected == 0,
            r.packages.component_selected == 0,
            r.packages.detail_tab == DetailTab::Permissions,
    {
        App {
            running: true,
            view: View::Overview,
            snapshots: Snapshots::new(),
            packages: PackagesState::default(),
        }
    }

    /// Moves to the next screen, wrapping from the last to the first.
    pub fn next_view(&mut self)
        ensures
            final(self).view == view_after(old(self).view),
            final(self).running == old(self).running,
            final(self).snapshots == old(self).snapshots,
            final(self).packages == old(self).packages,
    {
        self.view = match self.view {
            View::Overview => View::Packages,
            View::Packages => View::Logs,
            View::Logs => View::Overview,
        };
    }

    /// Records the result of a poll of `command_id`.
    pub fn apply_update(&mut self, command_id: String, result: Result<V, String>)
        ensures
            final(self).snapshots@ == old(self).snapshots@.insert(command_id@, result),
            final(self).view == old(self).view,
            final(self).running == old(self).running,
            final(self).packages == old(self).packages,
    {
        self.snapshots.insert(command_id, result);
    }

    /// The output of `id`'s last run, if it succeeded.
    pub fn snapshot_ok(&self, id: &str) -> (r: Option<&V>)
        ensures
            match r {
                Some(v) => ok_of(self.snapshots@, id@) == Some(*v),
                None => ok_of(self.snapshots@, id@) is None,
            },
    {
        match self.snapshots.get(id) {
            Some(Ok(v)) => Some(v),
            _ => None,
        }
    }

    /// The error message for `id`, if its last poll failed. Distinguishing
    /// this from "not polled yet" is what lets the UI show a real error.
    pub fn snapshot_err(&self, id: &str) -> (r: Option<&str>)
        ensures
            match r {
                Some(e) => err_of(self.snapshots@, id@) == Some(e@),
                None => err_of(self.snapshots@, id@) is None,
            },
    {
        match self.snapshots.get(id) {
            Some(Err(e)) => Some(e.as_str()),
            _ => None,
        }
    }
}

/// A key press, as the UI distinguishes them.
#[derive(Debug, Clone, Copy, PartialEq, Eq, Structural)]
pub enum Key {
    Esc,
    Enter,
    Backspace,
    Char(char),
    Tab,
    Up,
    Down,
    PageUp,
    PageDown,
    Left,
    Right,
    /// Any other key; it does nothing.
    Other,
}

/// The number of rows of the detail table that `tab` shows.
pub open spec fn table_len(d: PackageDetail, tab: DetailTab) -> int {
    match tab {
        DetailTab::Permissions => d.permissions@.len() as int,
        DetailTab::Activities => d.activities@.len() as int,
        DetailTab::Services => d.services@.len() as int,
        DetailTab::Receivers => d.receivers@.len() as int,
        DetailTab::Providers => d.providers@.len() as int,
    }
}

/// (permission row, component row) after moving the shown detail table's
/// selection by `delta`.
pub open spec fn moved_active(p: PackagesState, delta: int) -> (int, int) {
    match p.detail {
        None => (p.perm_selected as int, p.component_selected as int),
        Some(d) => {
            let len = table_len(d, p.detail_tab);
            if len == 0 {
                (p.perm_selected as int, p.component_selected as int)
            } else if p.detail_tab == DetailTab::Permissions {
                (clamped(p.perm_selected as int, delta, len), p.component_selected as int)
            } else {
                (p.perm_selected as int, clamped(p.component_selected as int, delta, len))
            }
        },
    }
}

/// The detail lists are short enough to index with `isize`.
pub open spec fn tables_fit(p: PackagesState) -> bool {
    p.detail matches Some(d) ==> {
        &&& d.permissions@.len() <= isize::MAX
        &&& d.activities@.len() <= isize::MAX
        &&& d.services@.len() <= isize::MAX
        &&& d.receivers@.len() <= isize::MAX
        &&& d.providers@.len() <= isize::MAX
    }
}

/// How many rows a page key moves.
pub const PAGE_ROWS: isize = 5;

impl<V> App<V> {
    /// Moves the selection of whichever detail table is shown: the
    /// permissions, or the active tab's components. Nothing happens while no
    /// detail is shown.
    pub fn move_active_tab_selection(&mut self, delta: isize)
        requires
            old(self).packages.perm_selected <= isize::MAX,
            old(self).packages.component_selected <= isize::MAX,
            old(self).packages.perm_selected + delta <= isize::MAX,
            old(self).packages.component_selected + delta <= isize::MAX,
            tables_fit(old(self).packages),
        ensures
            final(self).view == old(self).view,
            final(self).running == old(self).running,
            final(self).snapshots == old(self).snapshots,
            final(self).packages.selected == old(self).packages.selected,
            final(self).packages.detail == old(self).packages.detail,
            final(self).packages.detail_tab == old(self).packages.detail_tab,
            final(self).packages.search == old(self).packages.search,
            final(self).packages.search_active == old(self).packages.search_active,
            final(self).packages.pending == old(self).packages.pending,
            final(self).packages.detail_error == old(self).packages.detail_error,
            (final(self).packages.perm_selected as int, final(self).packages.component_selected as int)
                == moved_active(old(self).packages, delta as int),
    {
        let len = match &self.packages.detail {
            None => return,
            Some(detail) => match self.packages.detail_tab.components(detail) {
                None => detail.permissions.len(),
                Some(cs) => cs.len(),
            },
        };
        if self.packages.detail_tab == DetailTab::Permissions {
            self.packages.move_perm_selection(delta, len);
        } else {
            self.packages.move_component_selection(delta, len);
        }
    }
}

/// Keystrokes go into the search query.
pub open spec fn searching<V>(app: App<V>) -> bool {
    app.view == View::Packages && app.packages.search_active
}

/// The query after Backspace: its last character removed, if any.
pub open spec fn query_without_last(q: Seq<char>) -> Seq<char> {
    if q.len() > 0 {
        q.drop_last()
    } else {
        q
    }
}

/// The package the detail pane is about: the one being fetched, else the
/// one shown.
pub open spec fn detail_subject(p: PackagesState) -> Option<Seq<char>> {
    match p.pending {
        Some(n) => Some(n@),
        None => match p.detail {
            Some(d) => Some(d.name@),
            None => None,
        },
    }
}

/// The packages screen has a package under the cursor of `visible` that the
/// detail pane is not about.
pub open spec fn fetch_needed<V>(app: App<V>, visible: Seq<PackageRef>) -> bool {
    &&& app.view == View::Packages
    &&& app.packages.selected < visible.len()
    &&& detail_subject(app.packages) != Some(visible[app.packages.selected as int].name@)
}

impl<V> App<V> {
    /// Reacts to a key press. While a search is being typed, characters go
    /// into the query (Backspace removes one, Enter keeps the filter, Esc
    /// drops it), and any edit moves the selection back to the top.
    /// Otherwise `q` or Esc quits, Tab switches screens, and in the packages
    /// screen `/` starts a search, ↑↓ move through the `visible_len` listed
    /// packages, PgUp/PgDn scroll the detail table by five rows and ←→
    /// switch detail tabs.
    pub fn on_key(&mut self, key: Key, visible_len: usize)
        requires
            old(self).packages.selected < isize::MAX,
            visible_len <= isize::MAX,
            old(self).packages.perm_selected <= isize::MAX - PAGE_ROWS,
            old(self).packages.component_selected <= isize::MAX - PAGE_ROWS,
            tables_fit(old(self).packages),
        ensures
            final(self).snapshots == old(self).snapshots,
            final(self).packages.pending == old(self).packages.pending,
            final(self).packages.detail == old(self).packages.detail,
            final(self).packages.detail_error == old(self).packages.detail_error,
            key != Key::Tab ==> final(self).view == old(self).view,
            searching(*old(self)) && key == Key::Esc ==> {
                &&& !final(self).packages.search_active
                &&& final(self).packages.search@.len() == 0
                &&& final(self).packages.selected == 0
                &&& final(self).running == old(self).running
                &&& final(self).view == old(self).view
                &&& final(self).packages.detail_tab == old(self).packages.detail_tab
                &&& final(self).packages.perm_selected == old(self).packages.perm_selected
                &&& final(self).packages.component_selected == old(self).packages.component_selected
            },
            searching(*old(self)) && key == Key::Enter ==> {
                &&& !final(self).packages.search_active
                &&& final(self).packages.search == old(self).packages.search
                &&& final(self).packages.selected == old(self).packages.selected
                &&& final(self).running == old(self).running
                &&& final(self).packages.detail_tab == old(self).packages.detail_tab
                &&& final(self).packages.perm_selected == old(self).packages.perm_selected
                &&& final(self).packages.component_selected == old(self).packages.component_selected
            },
            searching(*old(self)) && key == Key::Backspace ==> {
                &&& final(self).packages.search_active
                &&& final(self).packages.search@ == query_without_last(old(self).packages.search@)
                &&& final(self).packages.selected == 0
                &&& final(self).running == old(self).running
                &&& final(self).packages.detail_tab == old(self).packages.detail_tab
                &&& final(self).packages.perm_selected == old(self).packages.perm_selected
                &&& final(self).packages.component_selected == old(self).packages.component_selected
            },
            searching(*old(self)) ==> (key matches Key::Char(c) ==> {
                &&& final(self).packages.search_active
                &&& final(self).packages.search@ == old(self).packages.search@.push(c)
                &&& final(self).packages.selected == 0
                &&& final(self).running == old(self).running
                &&& final(self).packages.detail_tab == old(self).packages.detail_tab
                &&& final(self).packages.perm_selected == old(self).packages.perm_selected
                &&& final(self).packages.component_selected == old(self).packages.component_selected
            }),
            !searching(*old(self)) && (key == Key::Esc || key == Key::Char('q')) ==> {
                &&& !final(self).running
                &&& final(self).view == old(self).view
                &&& final(self).packages == old(self).packages
            },
            key == Key::Tab ==> {
                &&& final(self).view == view_after(old(self).view)
                &&& final(self).running == old(self).running
                &&& final(self).packages == old(self).packages
            },
            !searching(*old(self)) && old(self).view == View::Packages && key == Key::Char('/') ==> {
                &&& final(self).packages.search_active
                &&& final(self).packages.search == old(self).packages.search
                &&& final(self).packages.selected == old(self).packages.selected
                &&& final(self).running == old(self).running
                &&& final(self).packages.detail_tab == old(self).packages.detail_tab
                &&& final(self).packages.perm_selected == old(self).packages.perm_selected
                &&& final(self).packages.component_selected == old(self).packages.component_selected
            },
            old(self).view == View::Packages && (key == Key::Up || key == Key::Down) ==> {
                let delta: int = if key == Key::Up {
                    -1
                } else {
                    1
                };
                &&& final(self).packages.selected == if visible_len == 0 {
                    old(self).packages.selected as int
                } else {
                    clamped(old(self).packages.selected as int, delta, visible_len as int)
                }
                &&& PackagesState::same_but_selected(&final(self).packages, &old(self).packages)
                &&& final(self).running == old(self).running
            },
            old(self).view == View::Packages && (key == Key::PageUp || key == Key::PageDown) ==> {
                let delta: int = if key == Key::PageUp {
                    -PAGE_ROWS
                } else {
                    PAGE_ROWS as int
                };
                &&& (final(self).packages.perm_selected as int,
                    final(self).packages.component_selected as int) == moved_active(
                    old(self).packages,
                    delta,
                )
                &&& final(self).packages.selected == old(self).packages.selected
                &&& final(self).packages.detail_tab == old(self).packages.detail_tab
                &&& final(self).packages.search == old(self).packages.search
                &&& final(self).packages.search_active == old(self).packages.search_active
                &&& final(self).running == old(self).running
            },
            old(self).view == View::Packages && (key == Key::Left || key == Key::Right) ==> {
                &&& key == Key::Right ==> final(self).packages.detail_tab == tab_at(
                    tab_index(old(self).packages.detail_tab) + 1,
                )
                &&& key == Key::Left ==> final(self).packages.detail_tab == tab_at(
                    tab_index(old(self).packages.detail_tab) + 4,
                )
                &&& final(self).packages.component_selected == 0
                &&& final(self).packages.perm_selected == old(self).packages.perm_selected
                &&& final(self).packages.selected == old(self).packages.selected
                &&& final(self).packages.search == old(self).packages.search
                &&& final(self).packages.search_active == old(self).packages.search_active
                &&& final(self).running == old(self).running
            },
            old(self).view != View::Packages && !(key == Key::Esc || key == Key::Char('q') || key
                == Key::Tab) ==> *final(self) == *old(self),
            key == Key::Other ==> *final(self) == *old(self),
            !searching(*old(self)) && (key == Key::Enter || key == Key::Backspace || key
                == Key::Other || (key matches Key::Char(c) && c != 'q' && c != '/')) ==> *final(self)
                == *old(self),
    {
        let searching = self.view == View::Packages && self.packages.search_active;
        let packages_view = self.view == View::Packages;
        if searching {
            match key {
                Key::Esc => {
                    self.packages.search_active = false;
                    self.packages.search = String::new();
                    self.packages.selected = 0;
                    return;
                },
                Key::Enter => {
                    self.packages.search_active = false;
                    return;
                },
                Key::Backspace => {
                    let mut q = chars_of(self.packages.search.as_str());
                    if q.len() > 0 {
                        q.pop();
                    }
                    self.packages.search = string_of(q.as_slice());
                    self.packages.selected = 0;
                    return;
                },
                Key::Char(c) => {
                    let mut q = chars_of(self.packages.search.as_str());
                    q.push(c);
                    self.packages.search = string_of(q.as_slice());
                    self.packages.selected = 0;
                    return;
                },
                _ => {},
            }
        }
        if key == Key::Char('q') || key == Key::Esc {
            self.running = false;
        } else if key == Key::Tab {
            self.next_view();
        } else if packages_view {
            match key {
                Key::Char(c) => {
                    if c == '/' {
                        self.packages.search_active = true;
                    }
                },
                Key::Up => {
                    self.packages.move_selection(-1, visible_len);
                },
                Key::Down => {
                    self.packages.move_selection(1, visible_len);
                },
                Key::PageUp => {
                    self.move_active_tab_selection(-PAGE_ROWS);
                },
                Key::PageDown => {
                    self.move_active_tab_selection(PAGE_ROWS);
                },
                Key::Left => {
                    self.packages.cycle_tab(false);
                },
                Key::Right => {
                    self.packages.cycle_tab(true);
                },
                _ => {},
            }
        }
    }

    /// Keeps the detail pane on the package under the cursor of the
    /// `visible` list: when the packages screen shows a selected package that
    /// is neither being fetched nor already shown, it becomes the pending
    /// fetch (the old detail and error are cleared) and its name is returned
    /// for the caller to fetch. Otherwise nothing changes.
    pub fn sync_detail(&mut self, visible: &Vec<PackageRef>) -> (r: Option<String>)
        ensures
            final(self).snapshots == old(self).snapshots,
            final(self).view == old(self).view,
            final(self).running == old(self).running,
            !fetch_needed(*old(self), visible@) ==> r is None && final(self).packages
                == old(self).packages,
            fetch_needed(*old(self), visible@) ==> {
                let p = old(self).packages;
                let name = visible@[p.selected as int].name@;
                &&& r matches Some(n) && n@ == name
                &&& final(self).packages.pending matches Some(n) && n@ == name
                &&& final(self).packages.detail is None
                &&& final(self).packages.detail_error is None
                &&& final(self).packages.selected == p.selected
                &&& final(self).packages.search == p.search
                &&& final(self).packages.search_active == p.search_active
                &&& final(self).packages.perm_selected == p.perm_selected
                &&& final(self).packages.detail_tab == p.detail_tab
                &&& final(self).packages.component_selected == p.component_selected
            },
    {
        if self.view != View::Packages || self.packages.selected >= visible.len() {
            return None;
        }
        let name = &visible[self.packages.selected].name;
        let same = match &self.packages.pending {
            Some(n) => eq_str(&chars_of(n.as_str()), name.as_str()),
            None => match &self.packages.detail {
                Some(d) => eq_str(&chars_of(d.name.as_str()), name.as_str()),
                None => false,
            },
        };
        if same {
            return None;
        }
        self.packages.pending = Some(name.clone());
        self.packages.detail = None;
        self.packages.detail_error = None;
        Some(name.clone())
    }
}

/// The score the skim fuzzy matcher (default settings) gives `choice` for
/// `pattern`, or `None` when it does not match.
pub uninterp spec fn skim_score(choice: Seq<char>, pattern: Seq<char>) -> Option<i64>;

/// `SkimMatcherV2::default().fuzzy_match(choice, pattern)`. Its score is a
/// function of the two strings alone and is named, not spelled out.
#[verifier::external_body]
fn skim_fuzzy_match(choice: &str, pattern: &str) -> (r: Option<i64>)
    ensures
        r == skim_score(choice@, pattern@),
{
    SkimMatcherV2::default().fuzzy_match(choice, pattern)
}

/// `a` goes before `b`: a higher score first, and on equal scores the earlier
/// package first.
pub open spec fn ranks_before(a: (i64, int), b: (i64, int)) -> bool {
    a.0 > b.0 || (a.0 == b.0 && a.1 < b.1)
}

/// The matching packages of `all` as (score, index) pairs, in list order.
pub open spec fn matches_of(all: Seq<PackageRefView>, q: Seq<char>) -> Seq<(i64, int)>
    decreases all.len(),
{
    if all.len() == 0 {
        seq![]
    } else {
        let rest = matches_of(all.drop_last(), q);
        match skim_score(all.last().name, q) {
            Some(s) => rest.push((s, all.len() - 1)),
            None => rest,
        }
    }
}

/// `ord` lists the entries of `ms` in ranking order: each once, and every
/// entry ahead of those it ranks before.
pub open spec fn is_ranking(ord: Seq<(i64, int)>, ms: Seq<(i64, int)>) -> bool {
    &&& ord.to_multiset() == ms.to_multiset()
    &&& forall|i: int, j: int| 0 <= i < j < ord.len() ==> ranks_before(#[trigger] ord[i], #[trigger] ord[j])
}

pub open spec fn ref_views(v: Seq<PackageRef>) -> Seq<PackageRefView> {
    v.map_values(|p: PackageRef| p@)
}

/// The package list narrowed by a fuzzy query, best matches first and, among
/// equal scores, in list order. An empty query keeps the whole list as it is.
pub fn filter_packages(all: Vec<PackageRef>, query: &str) -> (r: Vec<PackageRef>)
    ensures
        query@.len() == 0 ==> ref_views(r@) == ref_views(all@),
        query@.len() != 0 ==> exists|ord: Seq<(i64, int)>|
            is_ranking(ord, matches_of(ref_views(all@), query@)) && ref_views(r@) == ord.map_values(
                |m: (i64, int)| ref_views(all@)[m.1],
            ),
{
    if query.is_empty() {
        return all;
    }
    let ghost av = ref_views(all@);
    let mut ord: Vec<(i64, usize)> = Vec::new();
    let mut i: usize = 0;
    let ghost ms: Seq<(i64, int)> = seq![];
    assert(av.take(0) =~= Seq::<PackageRefView>::empty());
    assert(ord@.map_values(|m: (i64, usize)| (m.0, m.1 as int)) =~= ms);
    while i < all.len()
        invariant
            i <= all.len(),
            av == ref_views(all@),
            ms == matches_of(av.take(i as int), query@),
            is_ranking(ord@.map_values(|m: (i64, usize)| (m.0, m.1 as int)), ms),
            forall|j: int| 0 <= j < ord@.len() ==> (#[trigger] ord@[j]).1 < i,
        decreases all.len() - i,
    {
        assert(av.take(i + 1).drop_last() =~= av.take(i as int));
        assert(av.take(i + 1).last() == all@[i as int]@);
        let score = skim_fuzzy_match(all[i].name.as_str(), query);
        match score {
            Some(s) => {
                let ghost before = ord@.map_values(|m: (i64, usize)| (m.0, m.1 as int));
                let mut k: usize = 0;
                while k < ord.len()
                    invariant
                        k <= ord.len(),
                        forall|j: int| 0 <= j < k ==> (#[trigger] ord@[j]).0 >= s,
                    ensures
                        k <= ord.len(),
                        forall|j: int| 0 <= j < k ==> (#[trigger] ord@[j]).0 >= s,
                        k < ord.len() ==> ord@[k as int].0 < s,
                    decreases ord.len() - k,
                {
                    if ord[k].0 < s {
                        break;
                    }
                    k += 1;
                }
                ord.insert(k, (s, i));
                proof {
                    let after = ord@.map_values(|m: (i64, usize)| (m.0, m.1 as int));
                    assert(after =~= before.insert(k as int, (s, i as int)));
                    vstd::seq_lib::to_multiset_build(ms, (s, i as int));
                    vstd::seq_lib::to_multiset_insert(before, k as int, (s, i as int));
                    assert forall|a: int, b: int| 0 <= a < b < after.len() implies ranks_before(
                        #[trigger] after[a],
                        #[trigger] after[b],
                    ) by {
                        if b == k {
                            assert(after[a] == before[a]);
                            assert(ord@[a].0 >= s);
                        } else if a == k {
                            assert(after[b] == before[b - 1]);
                            if b - 1 > k {
                                assert(ranks_before(before[k as int], before[b - 1]));
                            }
                        }
                    }
                }
                proof {
                    ms = ms.push((s, i as int));
                }
            },
            None => {},
        }
        i += 1;
    }
    assert(av.take(i as int) =~= av);
    let mut out: Vec<PackageRef> = Vec::new();
    let mut all = all;
    let mut k: usize = 0;
    while k < ord.len()
        invariant
            k <= ord.len(),
            all@.len() == av.len(),
            forall|j: int| 0 <= j < all@.len() ==> (#[trigger] all@[j])@ == av[j],
            forall|j: int| 0 <= j < ord@.len() ==> (#[trigger] ord@[j]).1 < all@.len(),
            ref_views(out@) == ord@.take(k as int).map_values(|m: (i64, usize)| av[m.1 as int]),
        decreases ord.len() - k,
    {
        let idx = ord[k].1;
        let p = PackageRef { name: all[idx].name.clone(), system: all[idx].system };
        let ghost before = out@;
        assert(p@ == av[idx as int]);
        out.push(p);
        assert(ref_views(out@) =~= ref_views(before).push(p@));
        assert(ord@.take(k + 1).map_values(|m: (i64, usize)| av[m.1 as int]) =~= ord@.take(
            k as int,
        ).map_values(|m: (i64, usize)| av[m.1 as int]).push(av[idx as int]));
        assert(ref_views(out@) =~= ord@.take(k + 1).map_values(|m: (i64, usize)| av[m.1 as int]));
        k += 1;
    }
    proof {
        let ordv = ord@.map_values(|m: (i64, usize)| (m.0, m.1 as int));
        assert(ord@.take(k as int) =~= ord@);
        assert(ref_views(out@) =~= ordv.map_values(|m: (i64, int)| av[m.1]));
    }
    out
}

/// `s` cut to its first `max` bytes with an ellipsis, when it is longer than
/// that; `max` has to fall between two characters.
pub fn truncate(s: &str, max: usize) -> (r: String)
    requires
        byte_len(s@) <= max || exists|k: int| 0 <= k <= s@.len() && byte_len(s@.take(k)) == max,
    ensures
        byte_len(s@) <= max ==> r@ == s@,
        byte_len(s@) > max ==> exists|k: int|
            0 <= k <= s@.len() && byte_len(s@.take(k)) == max && r@ == s@.take(k) + "…"@,
{
    let cs = chars_of(s);
    let mut k: usize = 0;
    let mut used: usize = 0;
    assert(s@.take(0) =~= Seq::<char>::empty());
    assert(s@.take(s@.len() as int) =~= s@);
    while k < cs.len() && used < max
        invariant
            k <= cs.len(),
            cs@ == s@,
            used == byte_len(s@.take(k as int)),
            used <= max,
            byte_len(s@) <= max || exists|k0: int| 0 <= k0 <= s@.len() && byte_len(s@.take(k0)) == max,
            s@.take(s@.len() as int) == s@,
        decreases cs.len() - k,
    {
        proof {
            lemma_byte_len_push(s@.take(k as int), cs@[k as int]);
            assert(s@.take(k + 1) =~= s@.take(k as int).push(cs@[k as int]));
            if byte_len(s@) <= max {
                lemma_byte_len_mono(s@, k + 1, s@.len() as int);
            } else {
                let k0 = choose|k0: int| 0 <= k0 <= s@.len() && byte_len(s@.take(k0)) == max;
                if k0 <= k {
                    lemma_byte_len_mono(s@, k0, k as int);
                } else {
                    lemma_byte_len_mono(s@, k + 1, k0);
                }
            }
        }
        let w = char_width(cs[k]);
        used = used + w;
        k += 1;
    }
    if k < cs.len() {
        proof {
            lemma_byte_len_mono(s@, k as int, s@.len() as int);
        }
        let mut out = crate::text::copy_range(&cs, 0, k);
        push_str(&mut out, "…");
        assert(out@ =~= s@.take(k as int) + "…"@);
        string_of(out.as_slice())
    } else {
        string_of(cs.as_slice())
    }
}

} // verus!
