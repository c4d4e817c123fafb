//! Lexicographic order on character sequences, and sorting by a string key.
//!
//! `String`'s `Ord` compares UTF-8 bytes lexicographically, which orders
//! strings exactly as comparing their characters by code point does; that is
//! the order `chars_lt` defines.

use vstd::prelude::*;

verus! {

/// `a` sorts strictly before `b`.
pub open spec fn chars_lt(a: Seq<char>, b: Seq<char>) -> bool
    decreases a.len(),
{
    if a.len() == 0 {
        b.len() > 0
    } else if b.len() == 0 {
        false
    } else if a[0] != b[0] {
        a[0] < b[0]
    } else {
        chars_lt(a.drop_first(), b.drop_first())
    }
}

pub proof fn lemma_lt_irreflexive(a: Seq<char>)
    ensures
        !chars_lt(a, a),
    decreases a.len(),
{
    if a.len() > 0 {
        lemma_lt_irreflexive(a.drop_first());
    }
}

pub proof fn lemma_lt_asymmetric(a: Seq<char>, b: Seq<char>)
    ensures
        chars_lt(a, b) ==> !chars_lt(b, a),
    decreases a.len(),
{
    if a.len() > 0 && b.len() > 0 && a[0] == b[0] {
        lemma_lt_asymmetric(a.drop_first(), b.drop_first());
    }
}

pub proof fn lemma_lt_transitive(a: Seq<char>, b: Seq<char>, c: Seq<char>)
    ensures
        chars_lt(a, b) && chars_lt(b, c) ==> chars_lt(a, c),
    decreases a.len(),
{
    if a.len() > 0 && b.len() > 0 && c.len() > 0 {
        lemma_lt_transitive(a.drop_first(), b.drop_first(), c.drop_first());
    }
}

pub proof fn lemma_lt_total(a: Seq<char>, b: Seq<char>)
    ensures
        a != b ==> chars_lt(a, b) || chars_lt(b, a),
    decreases a.len(),
{
    if a.len() > 0 && b.len() > 0 {
        lemma_lt_total(a.drop_first(), b.drop_first());
        if a[0] == b[0] && a.drop_first() == b.drop_first() {
            assert(a =~= seq![a[0]] + a.drop_first());
            assert(b =~= seq![b[0]] + b.drop_first());
        }
    } else if a.len() == 0 && b.len() == 0 {
        assert(a =~= b);
    }
}

/// Comparison after a common prefix of length `i` is decided by the rest.
pub proof fn lemma_lt_common_prefix(a: Seq<char>, b: Seq<char>, i: int)
    requires
        0 <= i <= a.len(),
        i <= b.len(),
        forall|j: int| 0 <= j < i ==> a[j] == b[j],
    ensures
        chars_lt(a, b) == chars_lt(a.skip(i), b.skip(i)),
    decreases i,
{
    if i > 0 {
        assert(a.drop_first().skip(i - 1) =~= a.skip(i));
        assert(b.drop_first().skip(i - 1) =~= b.skip(i));
        assert forall|j: int| 0 <= j < i - 1 implies a.drop_first()[j] == b.drop_first()[j] by {
            assert(a.drop_first()[j] == a[j + 1]);
            assert(b.drop_first()[j] == b[j + 1]);
        }
        lemma_lt_common_prefix(a.drop_first(), b.drop_first(), i - 1);
    } else {
        assert(a.skip(0) =~= a);
        assert(b.skip(0) =~= b);
    }
}

/// Whether `a` sorts strictly before `b`.
pub fn lt_chars(a: &Vec<char>, b: &Vec<char>) -> (r: bool)
    ensures
        r == chars_lt(a@, b@),
{
    let mut i: usize = 0;
    while i < a.len() && i < b.len() && a[i] == b[i]
        invariant
            i <= a.len(),
            i <= b.len(),
            forall|j: int| 0 <= j < i ==> a@[j] == b@[j],
        decreases a.len() - i,
    {
        i += 1;
    }
    proof {
        lemma_lt_common_prefix(a@, b@, i as int);
    }
    if i == a.len() {
        i < b.len()
    } else if i == b.len() {
        false
    } else {
        assert(a@.skip(i as int)[0] == a@[i as int]);
        assert(b@.skip(i as int)[0] == b@[i as int]);
        a[i] < b[i]
    }
}

/// A value sorted by a string key.
pub trait Keyed {
    spec fn key(&self) -> Seq<char>;

    fn key_chars(&self) -> (r: &Vec<char>)
        ensures
            r@ == self.key(),
    ;
}

impl Keyed for Vec<char> {
    open spec fn key(&self) -> Seq<char> {
        self@
    }

    fn key_chars(&self) -> (r: &Vec<char>) {
        self
    }
}

/// No two entries share a key.
pub open spec fn keys_distinct<T: Keyed>(s: Seq<T>) -> bool {
    forall|i: int, j: int| 0 <= i < s.len() && 0 <= j < s.len() && i != j ==> s[i].key() != s[j].key()
}

/// Keys strictly increase along the sequence.
pub open spec fn sorted_by_key<T: Keyed>(s: Seq<T>) -> bool {
    forall|i: int, j: int| 0 <= i < j < s.len() ==> chars_lt(s[i].key(), s[j].key())
}

/// `r` holds the entries of `s`, each once, in increasing key order.
pub open spec fn is_key_sorting<T: Keyed>(r: Seq<T>, s: Seq<T>) -> bool {
    &&& sorted_by_key(r)
    &&& r.len() == s.len()
    &&& forall|x: T| r.contains(x) <==> s.contains(x)
}

/// Sorts entries with distinct keys by key.
pub fn sort_by_key<T: Keyed>(v: Vec<T>) -> (r: Vec<T>)
    requires
        keys_distinct(v@),
    ensures
        is_key_sorting(r@, v@),
{
    let ghost orig = v@;
    let mut v = v;
    let mut r: Vec<T> = Vec::new();
    while v.len() > 0
        invariant
            sorted_by_key(r@),
            keys_distinct(v@),
            r@.len() + v@.len() == orig.len(),
            forall|x: T| orig.contains(x) <==> (r@.contains(x) || v@.contains(x)),
            forall|i: int, j: int|
                0 <= i < r@.len() && 0 <= j < v@.len() ==> r@[i].key() != v@[j].key(),
        decreases v.len(),
    {
        let ghost before_v = v@;
        let x = v.pop().unwrap();
        assert(before_v =~= v@.push(x));
        let ghost xk = x.key();
        let xkey = x.key_chars();
        let mut i: usize = 0;
        while i < r.len()
            invariant
                i <= r.len(),
                xkey@ == xk,
                forall|j: int| 0 <= j < i ==> !chars_lt(xk, #[trigger] r@[j].key()),
            ensures
                i <= r.len(),
                forall|j: int| 0 <= j < i ==> !chars_lt(xk, #[trigger] r@[j].key()),
                i < r.len() ==> chars_lt(xk, r@[i as int].key()),
            decreases r.len() - i,
        {
            if lt_chars(xkey, r[i].key_chars()) {
                break;
            }
            i += 1;
        }
        proof {
            assert forall|j: int| 0 <= j < i implies chars_lt(#[trigger] r@[j].key(), xk) by {
                lemma_lt_total(xk, r@[j].key());
                assert(r@[j].key() != before_v[before_v.len() - 1].key());
            }
            assert forall|j: int| i <= j < r@.len() implies chars_lt(xk, #[trigger] r@[j].key()) by {
                if j > i {
                    lemma_lt_transitive(xk, r@[i as int].key(), r@[j].key());
                }
            }
        }
        let ghost before_r = r@;
        r.insert(i, x);
        proof {
            assert forall|a: int, b: int| 0 <= a < b < r@.len() implies chars_lt(
                r@[a].key(),
                r@[b].key(),
            ) by {
                if b < i {
                } else if b == i {
                } else if a < i {
                    lemma_lt_transitive(r@[a].key(), xk, r@[b].key());
                } else if a == i {
                } else {
                }
            }
            assert forall|y: T| orig.contains(y) <==> (r@.contains(y) || v@.contains(y)) by {
                if before_r.contains(y) {
                    let k = choose|k: int| 0 <= k < before_r.len() && before_r[k] == y;
                    if k < i {
                        assert(r@[k] == y);
                    } else {
                        assert(r@[k + 1] == y);
                    }
                }
                if r@.contains(y) {
                    let k = choose|k: int| 0 <= k < r@.len() && r@[k] == y;
                    if k < i {
                        assert(before_r[k] == y);
                    } else if k > i {
                        assert(before_r[k - 1] == y);
                    } else {
                        assert(before_v[before_v.len() - 1] == y);
                    }
                }
                if before_v.contains(y) {
                    let k = choose|k: int| 0 <= k < before_v.len() && before_v[k] == y;
                    if k == before_v.len() - 1 {
                        assert(r@[i as int] == y);
                    } else {
                        assert(v@[k] == y);
                    }
                }
                if v@.contains(y) {
                    let k = choose|k: int| 0 <= k < v@.len() && v@[k] == y;
                    assert(before_v[k] == y);
                }
            }
            assert forall|a: int, b: int|
                0 <= a < r@.len() && 0 <= b < v@.len() implies r@[a].key() != v@[b].key() by {
                assert(v@[b] == before_v[b]);
                if a < i {
                    assert(r@[a] == before_r[a]);
                } else if a > i {
                    assert(r@[a] == before_r[a - 1]);
                } else {
                    assert(before_v.len() - 1 != b);
                }
            }
        }
    }
    proof {
        assert forall|y: T| r@.contains(y) <==> orig.contains(y) by {
            if v@.contains(y) {
                let k = choose|k: int| 0 <= k < v@.len() && v@[k] == y;
            }
        }
    }
    r
}

/// Two sequences whose keys strictly increase and that hold the same
/// elements are the same sequence.
pub proof fn lemma_sorted_same_elements<T>(a: Seq<T>, b: Seq<T>, key: spec_fn(T) -> Seq<char>)
    requires
        forall|i: int, j: int| 0 <= i < j < a.len() ==> chars_lt(key(a[i]), key(a[j])),
        forall|i: int, j: int| 0 <= i < j < b.len() ==> chars_lt(key(b[i]), key(b[j])),
        forall|x: T| a.contains(x) <==> b.contains(x),
    ensures
        a == b,
    decreases a.len(),
{
    if a.len() == 0 {
        if b.len() > 0 {
            assert(b.contains(b[0]));
        }
        assert(a =~= b);
    } else {
        assert(a.contains(a[0]));
        assert(b.contains(b[0]));
        let j = choose|j: int| 0 <= j < b.len() && b[j] == a[0];
        let i = choose|i: int| 0 <= i < a.len() && a[i] == b[0];
        if j > 0 {
            assert(chars_lt(key(b[0]), key(b[j])));
            if i > 0 {
                assert(chars_lt(key(a[0]), key(a[i])));
                lemma_lt_transitive(key(b[0]), key(a[0]), key(a[i]));
            }
            lemma_lt_irreflexive(key(b[0]));
        }
        assert(a[0] == b[0]);
        let a1 = a.drop_first();
        let b1 = b.drop_first();
        assert forall|x: T| a1.contains(x) implies b1.contains(x) by {
            let p = choose|p: int| 0 <= p < a1.len() && a1[p] == x;
            assert(a[p + 1] == x);
            assert(chars_lt(key(a[0]), key(a[p + 1])));
            lemma_lt_irreflexive(key(x));
            assert(a.contains(x));
            let q = choose|q: int| 0 <= q < b.len() && b[q] == x;
            assert(q != 0);
            assert(b1[q - 1] == x);
        }
        assert forall|x: T| b1.contains(x) implies a1.contains(x) by {
            let p = choose|p: int| 0 <= p < b1.len() && b1[p] == x;
            assert(b[p + 1] == x);
            assert(chars_lt(key(b[0]), key(b[p + 1])));
            lemma_lt_irreflexive(key(x));
            assert(b.contains(x));
            let q = choose|q: int| 0 <= q < a.len() && a[q] == x;
            assert(q != 0);
            assert(a1[q - 1] == x);
        }
        assert forall|u: int, v: int| 0 <= u < v < a1.len() implies chars_lt(key(a1[u]), key(a1[v])) by {
            assert(a1[u] == a[u + 1] && a1[v] == a[v + 1]);
        }
        assert forall|u: int, v: int| 0 <= u < v < b1.len() implies chars_lt(key(b1[u]), key(b1[v])) by {
            assert(b1[u] == b[u + 1] && b1[v] == b[v + 1]);
        }
        lemma_sorted_same_elements(a1, b1, key);
        assert forall|u: int| 0 <= u < a.len() implies a[u] == b[u] by {
            if u > 0 {
                assert(a[u] == a1[u - 1] && b[u] == b1[u - 1]);
            }
        }
        assert(a =~= b);
    }
}

} // verus!
