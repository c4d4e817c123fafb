//! A string-keyed property map, as built from `key: value` style dumps.

use vstd::prelude::*;

use crate::text::{eq_chars, CharClass, chars_of, split_once, split_once_vec, string_of, trim, trim_vec, views};

verus! {

/// The map that inserting the pairs in order gives: a later pair for the
/// same key replaces an earlier one.
pub open spec fn pairs_map(ps: Seq<(Seq<char>, Seq<char>)>) -> Map<Seq<char>, Seq<char>>
    decreases ps.len(),
{
    if ps.len() == 0 {
        Map::empty()
    } else {
        pairs_map(ps.drop_last()).insert(ps.last().0, ps.last().1)
    }
}

pub open spec fn pair_views(ps: Seq<(Vec<char>, Vec<char>)>) -> Seq<(Seq<char>, Seq<char>)> {
    ps.map_values(|p: (Vec<char>, Vec<char>)| (p.0@, p.1@))
}

/// A map from property names to values.
///
/// The pairs are held in a `Vec`, read back through the view as a map in
/// which a later pair for a name replaces an earlier one: a hash map keyed
/// by strings gives the verifier nothing to reason with, and this is what
/// inserting the pairs in order into one would leave.
pub struct PropMap {
    entries: Vec<(Vec<char>, Vec<char>)>,
}

impl View for PropMap {
    type V = Map<Seq<char>, Seq<char>>;

    closed spec fn view(&self) -> Map<Seq<char>, Seq<char>> {
        pairs_map(pair_views(self.entries@))
    }
}

/// Pairs after position `j` do not touch key `k`.
proof fn lemma_pairs_map_prefix(ps: Seq<(Seq<char>, Seq<char>)>, j: int, k: Seq<char>)
    requires
        0 <= j <= ps.len(),
        forall|x: int| j <= x < ps.len() ==> (#[trigger] ps[x]).0 != k,
    ensures
        pairs_map(ps).contains_key(k) == pairs_map(ps.take(j)).contains_key(k),
        pairs_map(ps).contains_key(k) ==> pairs_map(ps)[k] == pairs_map(ps.take(j))[k],
    decreases ps.len() - j,
{
    if j < ps.len() {
        assert(ps.drop_last().take(j) =~= ps.take(j));
        assert(ps.last() == ps[ps.len() - 1]);
        lemma_pairs_map_prefix(ps.drop_last(), j, k);
    } else {
        assert(ps.take(j) =~= ps);
    }
}

impl PropMap {
    pub fn new() -> (r: PropMap)
        ensures
            r@ == Map::<Seq<char>, Seq<char>>::empty(),
    {
        let r = PropMap { entries: Vec::new() };
        proof {
            reveal_with_fuel(pairs_map, 1);
        }
        assert(pair_views(r.entries@) =~= Seq::<(Seq<char>, Seq<char>)>::empty());
        r
    }

    /// Set `k` to `v`, replacing an earlier value.
    pub fn insert(&mut self, k: Vec<char>, v: Vec<char>)
        ensures
            final(self)@ == old(self)@.insert(k@, v@),
    {
        let ghost before = pair_views(self.entries@);
        let ghost kv = (k@, v@);
        self.entries.push((k, v));
        assert(pair_views(self.entries@).drop_last() =~= before);
        assert(pair_views(self.entries@).last() == kv);
    }

    /// The value of `k`, if it has one.
    pub fn get_chars(&self, k: &Vec<char>) -> (r: Option<&Vec<char>>)
        ensures
            match r {
                Some(v) => self@.contains_key(k@) && self@[k@] == v@,
                None => !self@.contains_key(k@),
            },
    {
        let ghost ps = pair_views(self.entries@);
        let mut j = self.entries.len();
        while j > 0
            invariant
                j <= self.entries.len(),
                ps == pair_views(self.entries@),
                forall|x: int| j <= x < ps.len() ==> (#[trigger] ps[x]).0 != k@,
            decreases j,
        {
            if eq_chars(&self.entries[j - 1].0, k) {
                proof {
                    lemma_pairs_map_prefix(ps, j as int, k@);
                    assert(ps.take(j as int).drop_last() =~= ps.take(j - 1));
                    assert(ps.take(j as int).last() == ps[j - 1]);
                }
                return Some(&self.entries[j - 1].1);
            }
            j -= 1;
        }
        proof {
            lemma_pairs_map_prefix(ps, 0, k@);
            assert(ps.take(0) =~= Seq::<(Seq<char>, Seq<char>)>::empty());
        }
        None
    }

    /// The value of the property named `key`, if it has one.
    pub fn get(&self, key: &str) -> (r: Option<String>)
        ensures
            match r {
                Some(v) => self@.contains_key(key@) && self@[key@] == v@,
                None => !self@.contains_key(key@),
            },
    {
        let k = chars_of(key);
        match self.get_chars(&k) {
            Some(v) => Some(string_of(v.as_slice())),
            None => None,
        }
    }

    /// The value of `key`, or the empty string.
    pub fn get_or_empty(&self, key: &str) -> (r: String)
        ensures
            r@ == value_or_empty(self@, key@),
    {
        match self.get(key) {
            Some(v) => v,
            None => String::new(),
        }
    }
}

/// The value of `k`, or the empty sequence.
pub open spec fn value_or_empty(m: Map<Seq<char>, Seq<char>>, k: Seq<char>) -> Seq<char> {
    if m.contains_key(k) {
        m[k]
    } else {
        seq![]
    }
}

/// `line.split_once(':')` with both sides trimmed.
pub open spec fn colon_pair(line: Seq<char>) -> Option<(Seq<char>, Seq<char>)> {
    match split_once(line, CharClass::Is(':')) {
        Some((k, v)) => Some((trim(k), trim(v))),
        None => None,
    }
}

/// The `key: value` pairs of the lines that hold a colon, in order.
pub open spec fn colon_pairs(ls: Seq<Seq<char>>) -> Seq<(Seq<char>, Seq<char>)>
    decreases ls.len(),
{
    if ls.len() == 0 {
        seq![]
    } else {
        let rest = colon_pairs(ls.drop_last());
        match colon_pair(ls.last()) {
            Some(p) => rest.push(p),
            None => rest,
        }
    }
}

/// The map of the `key: value` lines (split at the first colon, both sides
/// trimmed; a later line for the same key wins).
pub fn colon_map(ls: &Vec<Vec<char>>) -> (r: PropMap)
    ensures
        r@ == pairs_map(colon_pairs(views(ls@))),
{
    let ghost lv = views(ls@);
    let mut m = PropMap::new();
    let mut i: usize = 0;
    assert(lv.take(0) =~= Seq::<Seq<char>>::empty());
    while i < ls.len()
        invariant
            i <= ls.len(),
            lv == views(ls@),
            m@ == pairs_map(colon_pairs(lv.take(i as int))),
        decreases ls.len() - i,
    {
        assert(lv.take(i + 1).drop_last() =~= lv.take(i as int));
        assert(lv.take(i + 1).last() == ls@[i as int]@);
        let ghost prev = colon_pairs(lv.take(i as int));
        match split_once_vec(&ls[i], CharClass::Is(':')) {
            Some((k, v)) => {
                let kt = trim_vec(&k);
                let vt = trim_vec(&v);
                let ghost p = (kt@, vt@);
                assert(colon_pairs(lv.take(i + 1)) == prev.push(p));
                assert(prev.push(p).drop_last() =~= prev);
                m.insert(kt, vt);
            },
            None => {
                assert(colon_pairs(lv.take(i + 1)) == prev);
            },
        }
        i += 1;
    }
    assert(lv.take(i as int) =~= lv);
    m
}

} // verus!
