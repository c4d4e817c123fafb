//! The command registry: a name-keyed map of commands.
//!
//! Third-party authors add their own commands with [`Registry::register`];
//! registering an id that is already present replaces the earlier command,
//! which is how a built-in is deliberately overridden.

use vstd::prelude::*;

use crate::command::{CommandError, CommandMeta, CommandResult, Describe};
use crate::engine::config::EngineConfig;
use crate::order::{chars_lt, lemma_lt_irreflexive, lemma_lt_total, lt_chars};
use crate::text::{chars_of, eq_chars, push_str, string_of};

verus! {

/// Commands keyed by their ids, kept in ascending id order, each with the
/// metadata it reported when it was registered.
///
/// The entries are a `Vec` kept sorted and free of repeated ids rather than
/// an ordered map: a map keyed by strings gives the verifier nothing to
/// reason with, while the sorted vector's invariant states exactly what the
/// map would give (one command per id, listed in id order).
pub struct Registry<C: Describe> {
    entries: Vec<(CommandMeta, C)>,
}

/// The index of `k` in `ids`, when it occurs there.
pub open spec fn position(ids: Seq<Seq<char>>, k: Seq<char>) -> int {
    choose|i: int| 0 <= i < ids.len() && ids[i] == k
}

pub open spec fn strictly_sorted(ids: Seq<Seq<char>>) -> bool {
    forall|i: int, j: int| 0 <= i < j < ids.len() ==> chars_lt(#[trigger] ids[i], #[trigger] ids[j])
}

proof fn lemma_position(ids: Seq<Seq<char>>, i: int)
    requires
        strictly_sorted(ids),
        0 <= i < ids.len(),
    ensures
        position(ids, ids[i]) == i,
{
    let p = position(ids, ids[i]);
    assert(0 <= p < ids.len() && ids[p] == ids[i]);
    if p < i {
        lemma_lt_irreflexive(ids[i]);
    } else if p > i {
        lemma_lt_irreflexive(ids[i]);
    }
}

/// The ids of `es`, in order.
pub open spec fn ids_of<C>(es: Seq<(CommandMeta, C)>) -> Seq<Seq<char>> {
    es.map_values(|e: (CommandMeta, C)| e.0.id@)
}

/// The commands of `es` by id, each with its metadata.
pub open spec fn map_of<C>(es: Seq<(CommandMeta, C)>) -> Map<Seq<char>, (CommandMeta, C)> {
    Map::new(|k: Seq<char>| ids_of(es).contains(k), |k: Seq<char>| es[position(ids_of(es), k)])
}

/// Entries in strictly ascending id order, each holding metadata that its
/// command reports of itself.
pub open spec fn inv_of<C: Describe>(es: Seq<(CommandMeta, C)>) -> bool {
    &&& strictly_sorted(ids_of(es))
    &&& forall|i: int| 0 <= i < es.len() ==> call_ensures(C::meta, (&(#[trigger] es[i]).1,), es[i].0)
}

/// Each command of `m` sits under the id it reports, with metadata that it
/// reports of itself.
pub open spec fn reports_own_meta<C: Describe>(m: Map<Seq<char>, (CommandMeta, C)>) -> bool {
    forall|k: Seq<char>| #[trigger] m.dom().contains(k) ==> {
        &&& m[k].0.id@ == k
        &&& call_ensures(C::meta, (&m[k].1,), m[k].0)
    }
}

proof fn lemma_inv_reports<C: Describe>(es: Seq<(CommandMeta, C)>)
    requires
        inv_of(es),
    ensures
        reports_own_meta(map_of(es)),
{
    assert forall|k: Seq<char>| #[trigger] map_of(es).dom().contains(k) implies {
        &&& map_of(es)[k].0.id@ == k
        &&& call_ensures(C::meta, (&map_of(es)[k].1,), map_of(es)[k].0)
    } by {
        let p = position(ids_of(es), k);
        assert(0 <= p < es.len() && ids_of(es)[p] == k);
        assert(es[p].0.id@ == ids_of(es)[p]);
    }
}

impl<C: Describe> Registry<C> {
    /// The registry's invariant.
    #[verifier::type_invariant]
    spec fn wf(self) -> bool {
        inv_of(self.entries@)
    }

    /// The commands by id, each with its metadata.
    pub closed spec fn view(&self) -> Map<Seq<char>, (CommandMeta, C)> {
        map_of(self.entries@)
    }

    /// The ids are ascending and are exactly the keys.
    proof fn lemma_ids(es: Seq<(CommandMeta, C)>)
        requires
            inv_of(es),
        ensures
            ids_of(es).to_set() == map_of(es).dom(),
            ids_of(es).len() == map_of(es).dom().len(),
    {
        assert(ids_of(es).to_set() =~= map_of(es).dom());
        assert(ids_of(es).no_duplicates()) by {
            assert forall|i: int, j: int|
                0 <= i < ids_of(es).len() && 0 <= j < ids_of(es).len() && i != j implies ids_of(es)[i]
                != ids_of(es)[j] by {
                if i < j {
                    lemma_lt_irreflexive(ids_of(es)[i]);
                } else {
                    lemma_lt_irreflexive(ids_of(es)[j]);
                }
            }
        }
        ids_of(es).unique_seq_to_set();
    }

    pub fn new() -> (r: Self)
        ensures
            r@ == Map::<Seq<char>, (CommandMeta, C)>::empty(),
            r@.dom().finite(),
    {
        let r = Registry { entries: Vec::new() };
        assert(r@ =~= Map::<Seq<char>, (CommandMeta, C)>::empty());
        r
    }

    /// Registers a command under the id it reports, replacing a command
    /// already registered under that id, and hands the registry back so
    /// that registrations can be chained.
    pub fn register(&mut self, cmd: C) -> (r: &mut Self)
        ensures
            exists|m: CommandMeta|
                call_ensures(C::meta, (&cmd,), m) && (*r)@ == old(self)@.insert(m.id@, (m, cmd)),
            (*r)@.dom().finite(),
            reports_own_meta((*r)@),
            *final(self) == *final(r),
    {
        proof {
            use_type_invariant(&*self);
        }
        let meta = cmd.meta();
        let mut entries: Vec<(CommandMeta, C)> = Vec::new();
        std::mem::swap(&mut entries, &mut self.entries);
        Self::insert_sorted(&mut entries, meta, cmd);
        self.entries = entries;
        proof {
            lemma_inv_reports(self.entries@);
            Self::lemma_ids(self.entries@);
            assert(call_ensures(C::meta, (&cmd,), meta));
        }
        self
    }

    /// Puts `(meta, cmd)` in its place by id, replacing an entry with the
    /// same id.
    fn insert_sorted(entries: &mut Vec<(CommandMeta, C)>, meta: CommandMeta, cmd: C)
        requires
            inv_of(old(entries)@),
            call_ensures(C::meta, (&cmd,), meta),
        ensures
            inv_of(final(entries)@),
            map_of(final(entries)@) == map_of(old(entries)@).insert(meta.id@, (meta, cmd)),
    {
        let id = meta.id;
        let key = chars_of(id);
        let ghost k = id@;
        let ghost ids = ids_of(entries@);
        let ghost old_es = entries@;
        let mut i: usize = 0;
        while i < entries.len()
            invariant
                i <= entries.len(),
                inv_of(entries@),
                ids == ids_of(entries@),
                entries@ == old_es,
                key@ == k,
                forall|j: int| 0 <= j < i ==> chars_lt(#[trigger] ids[j], k),
            ensures
                i <= entries.len(),
                forall|j: int| 0 <= j < i ==> chars_lt(#[trigger] ids[j], k),
                i < entries.len() ==> !chars_lt(ids[i as int], k),
            decreases entries.len() - i,
        {
            let here = chars_of(entries[i].0.id);
            assert(ids[i as int] == here@);
            if !lt_chars(&here, &key) {
                break;
            }
            i += 1;
        }
        let ghost old_entries = entries@;
        if i < entries.len() && eq_chars(&chars_of(entries[i].0.id), &key) {
            assert(ids[i as int] == k);
            entries.set(i, (meta, cmd));
            proof {
                assert(ids_of(entries@) =~= ids);
                assert(map_of(entries@) =~= map_of(old_es).insert(k, (meta, cmd))) by {
                    assert forall|kk: Seq<char>| #[trigger] ids_of(entries@).contains(kk) implies map_of(entries@)[kk]
                        == map_of(old_es).insert(k, (meta, cmd))[kk] by {
                        let p = choose|p: int| 0 <= p < ids_of(entries@).len() && ids_of(entries@)[p] == kk;
                        lemma_position(ids_of(entries@), p);
                        lemma_position(ids, p);
                        if p < i {
                            assert(chars_lt(ids[p], ids[i as int]));
                            lemma_lt_irreflexive(k);
                        } else if p > i {
                            assert(chars_lt(ids[i as int], ids[p]));
                            lemma_lt_irreflexive(k);
                        }
                    }
                }
            }
        } else {
            proof {
                if i < ids.len() {
                    lemma_lt_total(ids[i as int], k);
                }
            }
            entries.insert(i, (meta, cmd));
            proof {
                assert(ids_of(entries@) =~= ids.insert(i as int, k));
                assert(strictly_sorted(ids_of(entries@))) by {
                    assert forall|a: int, b: int|
                        0 <= a < b < ids_of(entries@).len() implies chars_lt(
                        #[trigger] ids_of(entries@)[a],
                        #[trigger] ids_of(entries@)[b],
                    ) by {
                        if a < i && b > i {
                            crate::order::lemma_lt_transitive(ids[a], k, ids[b - 1]);
                        } else if a == i && b > i + 1 {
                            crate::order::lemma_lt_transitive(k, ids[a], ids[b - 1]);
                        }
                    }
                }
                assert(!ids.contains(k)) by {
                    if ids.contains(k) {
                        let p = choose|p: int| 0 <= p < ids.len() && ids[p] == k;
                        lemma_lt_irreflexive(k);
                        if p > i {
                            crate::order::lemma_lt_transitive(k, ids[i as int], ids[p]);
                        }
                    }
                }
                assert(map_of(entries@) =~= map_of(old_es).insert(k, (meta, cmd))) by {
                    assert forall|kk: Seq<char>| #[trigger] ids_of(entries@).contains(kk) implies map_of(entries@)[kk]
                        == map_of(old_es).insert(k, (meta, cmd))[kk] by {
                        let p = choose|p: int| 0 <= p < ids_of(entries@).len() && ids_of(entries@)[p] == kk;
                        lemma_position(ids_of(entries@), p);
                        if p < i {
                            lemma_position(ids, p);
                        } else if p > i {
                            lemma_position(ids, p - 1);
                        }
                    }
                    assert forall|kk: Seq<char>| ids_of(entries@).contains(kk) <==> map_of(old_es).insert(
                        k,
                        (meta, cmd),
                    ).dom().contains(kk) by {
                        if ids.contains(kk) {
                            let p = choose|p: int| 0 <= p < ids.len() && ids[p] == kk;
                            if p < i {
                                assert(ids_of(entries@)[p] == kk);
                            } else {
                                assert(ids_of(entries@)[p + 1] == kk);
                            }
                        }
                        if ids_of(entries@).contains(kk) && kk != k {
                            let p = choose|p: int| 0 <= p < ids_of(entries@).len() && ids_of(entries@)[p] == kk;
                            if p < i {
                                assert(ids[p] == kk);
                            } else {
                                assert(ids[p - 1] == kk);
                            }
                        }
                        if kk == k {
                            assert(ids_of(entries@)[i as int] == k);
                        }
                    }
                }
            }
        }
    }

    /// Index of `id` among the entries, if registered.
    fn index_of(&self, id: &str) -> (r: Option<usize>)
        requires
            self.wf(),
        ensures
            match r {
                Some(i) => i < self.entries@.len() && ids_of(self.entries@)[i as int] == id@,
                None => !self@.dom().contains(id@),
            },
    {
        let key = chars_of(id);
        let mut i: usize = 0;
        while i < self.entries.len()
            invariant
                i <= self.entries.len(),
                key@ == id@,
                forall|j: int| 0 <= j < i ==> ids_of(self.entries@)[j] != id@,
            decreases self.entries.len() - i,
        {
            let here = chars_of(self.entries[i].0.id);
            assert(ids_of(self.entries@)[i as int] == here@);
            if eq_chars(&here, &key) {
                return Some(i);
            }
            i += 1;
        }
        None
    }

    /// The command registered under `id`.
    pub fn get(&self, id: &str) -> (r: Option<&C>)
        ensures
            match r {
                Some(c) => self@.dom().contains(id@) && *c == self@[id@].1,
                None => !self@.dom().contains(id@),
            },
            reports_own_meta(self@),
    {
        proof {
            use_type_invariant(self);
            lemma_inv_reports(self.entries@);
        }
        match self.index_of(id) {
            Some(i) => {
                proof {
                    lemma_position(ids_of(self.entries@), i as int);
                }
                Some(&self.entries[i].1)
            },
            None => None,
        }
    }

    pub fn contains(&self, id: &str) -> (r: bool)
        ensures
            r == self@.dom().contains(id@),
    {
        proof {
            use_type_invariant(self);
        }
        self.index_of(id).is_some()
    }

    /// Metadata for every registered command, sorted by id: one entry per
    /// command, the metadata it reported.
    pub fn list(&self) -> (r: Vec<CommandMeta>)
        ensures
            r@.len() == self@.dom().len(),
            forall|i: int|
                0 <= i < r@.len() ==> self@.dom().contains(r@[i].id@) && #[trigger] r@[i]
                    == self@[r@[i].id@].0,
            forall|i: int, j: int|
                0 <= i < j < r@.len() ==> chars_lt(#[trigger] r@[i].id@, #[trigger] r@[j].id@),
            forall|k: Seq<char>|
                #[trigger] self@.dom().contains(k) ==> exists|i: int| 0 <= i < r@.len() && r@[i].id@ == k,
            reports_own_meta(self@),
    {
        proof {
            use_type_invariant(self);
            lemma_inv_reports(self.entries@);
            Self::lemma_ids(self.entries@);
        }
        let ghost ids = ids_of(self.entries@);
        let mut out: Vec<CommandMeta> = Vec::new();
        let mut i: usize = 0;
        while i < self.entries.len()
            invariant
                i <= self.entries.len(),
                ids == ids_of(self.entries@),
                inv_of(self.entries@),
                out@.len() == i,
                forall|j: int| 0 <= j < i ==> #[trigger] out@[j] == self.entries@[j].0,
            decreases self.entries.len() - i,
        {
            let m = self.entries[i].0;
            out.push(m);
            i += 1;
        }
        proof {
            assert forall|j: int| 0 <= j < out@.len() implies self@.dom().contains(out@[j].id@)
                && #[trigger] out@[j] == self@[out@[j].id@].0 by {
                assert(ids[j] == out@[j].id@);
                lemma_position(ids, j);
            }
            assert forall|a: int, b: int| 0 <= a < b < out@.len() implies chars_lt(
                #[trigger] out@[a].id@,
                #[trigger] out@[b].id@,
            ) by {
                assert(ids[a] == out@[a].id@ && ids[b] == out@[b].id@);
            }
            assert forall|k: Seq<char>| #[trigger] self@.dom().contains(k) implies exists|j: int|
                0 <= j < out@.len() && out@[j].id@ == k by {
                let p = position(ids, k);
                assert(ids[p] == out@[p].id@);
            }
        }
        out
    }

    pub fn len(&self) -> (r: usize)
        ensures
            r == self@.dom().len(),
    {
        proof {
            use_type_invariant(self);
            Self::lemma_ids(self.entries@);
        }
        self.entries.len()
    }

    pub fn is_empty(&self) -> (r: bool)
        ensures
            r == (self@.dom().len() == 0),
    {
        proof {
            use_type_invariant(self);
            Self::lemma_ids(self.entries@);
        }
        self.entries.len() == 0
    }

    /// The command that a run of `id` uses: an unknown id is an invalid
    /// argument, and a mutating command is refused in read-only mode.
    pub fn resolve(&self, id: &str, config: &EngineConfig) -> (r: CommandResult<&C>)
        ensures
            !self@.dom().contains(id@) ==> (r matches Err(CommandError::InvalidArgument(m)) && m@
                == "unknown command `"@ + id@ + "`"@),
            self@.dom().contains(id@) && config.read_only && self@[id@].0.mutating ==> (r matches Err(
                CommandError::ReadOnlyViolation(m),
            ) && m@ == id@),
            self@.dom().contains(id@) && !(config.read_only && self@[id@].0.mutating) ==> (r matches Ok(
                c,
            ) && *c == self@[id@].1),
            reports_own_meta(self@),
    {
        proof {
            use_type_invariant(self);
            lemma_inv_reports(self.entries@);
        }
        match self.index_of(id) {
            None => {
                let mut msg: Vec<char> = Vec::new();
                push_str(&mut msg, "unknown command `");
                push_str(&mut msg, id);
                push_str(&mut msg, "`");
                Err(CommandError::InvalidArgument(string_of(msg.as_slice())))
            },
            Some(i) => {
                proof {
                    lemma_position(ids_of(self.entries@), i as int);
                }
                if config.read_only && self.entries[i].0.mutating {
                    Err(CommandError::ReadOnlyViolation(string_of(chars_of(id).as_slice())))
                } else {
                    Ok(&self.entries[i].1)
                }
            },
        }
    }
}

} // verus!
