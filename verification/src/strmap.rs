//! `StrMap` — a string-keyed map kept in key order (code-point
//! lexicographic, the order a `BTreeMap<String, _>` iterates in).
//!
//! Modelled as its sorted entry sequence `self@`; [`lookup`] gives the map
//! reading of that sequence.

use vstd::prelude::*;

use crate::text::{
    KeyOrder, chars_of, compare_chars, lemma_lex_asymmetric, lemma_lex_irreflexive,
    lemma_lex_transitive, lex_lt,
};

verus! {

/// Entries strictly increasing by key (so keys are distinct).
pub open spec fn entries_sorted<V>(e: Seq<(Seq<char>, V)>) -> bool {
    forall|i: int, j: int| 0 <= i < j < e.len() ==> lex_lt(e[i].0, e[j].0)
}

/// The value stored under `k`, if any.
pub open spec fn lookup<V>(e: Seq<(Seq<char>, V)>, k: Seq<char>) -> Option<V> {
    if exists|i: int| 0 <= i < e.len() && e[i].0 == k {
        Some(e[choose|i: int| 0 <= i < e.len() && e[i].0 == k].1)
    } else {
        None
    }
}

/// The text stored under `k`, if any.
pub open spec fn lookup_text(e: Seq<(Seq<char>, String)>, k: Seq<char>) -> Option<Seq<char>> {
    match lookup(e, k) {
        Some(v) => Some(v@),
        None => None,
    }
}

/// In sorted entries, the entry holding key `k` is the one `lookup` reads.
pub proof fn lemma_lookup_at<V>(e: Seq<(Seq<char>, V)>, i: int)
    requires
        entries_sorted(e),
        0 <= i < e.len(),
    ensures
        lookup(e, e[i].0) == Some(e[i].1),
{
    let k = e[i].0;
    assert(exists|j: int| 0 <= j < e.len() && e[j].0 == k);
    let j = choose|j: int| 0 <= j < e.len() && e[j].0 == k;
    lemma_lex_irreflexive(k);
    if j < i {
        assert(lex_lt(e[j].0, e[i].0));
    } else if j > i {
        assert(lex_lt(e[i].0, e[j].0));
    }
}

/// A prefix of sorted entries is sorted.
pub proof fn lemma_take_sorted<V>(e: Seq<(Seq<char>, V)>, n: int)
    requires
        entries_sorted(e),
        0 <= n <= e.len(),
    ensures
        entries_sorted(e.take(n)),
{
    assert forall|i: int, j: int| 0 <= i < j < e.take(n).len() implies lex_lt(
        e.take(n)[i].0,
        e.take(n)[j].0,
    ) by {
        assert(e.take(n)[i] == e[i]);
        assert(e.take(n)[j] == e[j]);
    }
}

/// Appending an entry whose key sorts after every other one: the new key
/// reads its value, other keys read as before.
pub proof fn lemma_lookup_push<V>(e: Seq<(Seq<char>, V)>, x: (Seq<char>, V))
    requires
        entries_sorted(e.push(x)),
    ensures
        lookup(e.push(x), x.0) == Some(x.1),
        forall|k: Seq<char>| k != x.0 ==> #[trigger] lookup(e.push(x), k) == lookup(e, k),
{
    let f = e.push(x);
    lemma_lookup_at(f, e.len() as int);
    assert forall|i: int, j: int| 0 <= i < j < e.len() implies lex_lt(e[i].0, e[j].0) by {
        assert(f[i] == e[i]);
        assert(f[j] == e[j]);
    }
    assert forall|k: Seq<char>| k != x.0 implies #[trigger] lookup(f, k) == lookup(e, k) by {
        if exists|i: int| 0 <= i < e.len() && e[i].0 == k {
            let i = choose|i: int| 0 <= i < e.len() && e[i].0 == k;
            lemma_lookup_at(e, i);
            assert(f[i] == e[i]);
            lemma_lookup_at(f, i);
        } else {
            assert forall|i: int| 0 <= i < f.len() implies f[i].0 != k by {
                if i < e.len() {
                    assert(f[i] == e[i]);
                }
            }
        }
    }
}

/// A string-keyed map iterated in key order.
pub struct StrMap<V> {
    keys: Vec<Vec<char>>,
    names: Vec<String>,
    vals: Vec<V>,
}

impl<V> View for StrMap<V> {
    type V = Seq<(Seq<char>, V)>;

    closed spec fn view(&self) -> Seq<(Seq<char>, V)> {
        Seq::new(self.vals@.len(), |i: int| (self.keys@[i]@, self.vals@[i]))
    }
}

impl<V> StrMap<V> {
    /// Internal consistency: parallel vectors agree and keys are sorted.
    pub closed spec fn wf(&self) -> bool {
        &&& self.keys@.len() == self.vals@.len()
        &&& self.names@.len() == self.vals@.len()
        &&& forall|i: int| 0 <= i < self.vals@.len() ==> #[trigger] self.names@[i]@ == self.keys@[i]@
        &&& entries_sorted(self@)
    }

    pub proof fn lemma_wf_sorted(&self)
        requires
            self.wf(),
        ensures
            entries_sorted(self@),
    {
    }

    pub fn new() -> (m: Self)
        ensures
            m.wf(),
            m@ == Seq::<(Seq<char>, V)>::empty(),
    {
        let m = StrMap { keys: Vec::new(), names: Vec::new(), vals: Vec::new() };
        assert(m@ =~= Seq::<(Seq<char>, V)>::empty());
        m
    }

    pub fn len(&self) -> (n: usize)
        requires
            self.wf(),
        ensures
            n == self@.len(),
    {
        self.vals.len()
    }

    pub fn is_empty(&self) -> (b: bool)
        requires
            self.wf(),
        ensures
            b == (self@.len() == 0),
    {
        self.vals.len() == 0
    }

    /// The `i`-th key in key order.
    pub fn key_at(&self, i: usize) -> (k: &str)
        requires
            self.wf(),
            i < self@.len(),
        ensures
            k@ == self@[i as int].0,
    {
        self.names[i].as_str()
    }

    /// The `i`-th key's characters.
    pub fn key_chars_at(&self, i: usize) -> (k: &Vec<char>)
        requires
            self.wf(),
            i < self@.len(),
        ensures
            k@ == self@[i as int].0,
    {
        &self.keys[i]
    }

    /// The `i`-th value in key order.
    pub fn value_at(&self, i: usize) -> (v: &V)
        requires
            self.wf(),
            i < self@.len(),
        ensures
            *v == self@[i as int].1,
    {
        &self.vals[i]
    }

    /// Binary search for `key`: `Ok(i)` when stored at `i`, `Err(p)` with
    /// `p` the position it would be inserted at.
    fn search(&self, key: &Vec<char>) -> (r: Result<usize, usize>)
        requires
            self.wf(),
        ensures
            match r {
                Ok(i) => i < self@.len() && self@[i as int].0 == key@,
                Err(p) => {
                    &&& p <= self@.len()
                    &&& forall|i: int| 0 <= i < p ==> lex_lt(#[trigger] self@[i].0, key@)
                    &&& forall|i: int| p <= i < self@.len() ==> lex_lt(key@, #[trigger] self@[i].0)
                },
            },
    {
        let mut lo: usize = 0;
        let mut hi: usize = self.vals.len();
        while lo < hi
            invariant
                self.wf(),
                lo <= hi <= self@.len(),
                forall|i: int| 0 <= i < lo ==> lex_lt(#[trigger] self@[i].0, key@),
                forall|i: int| hi <= i < self@.len() ==> lex_lt(key@, #[trigger] self@[i].0),
            decreases hi - lo,
        {
            let mid = lo + (hi - lo) / 2;
            assert(self@[mid as int].0 == self.keys@[mid as int]@);
            match compare_chars(&self.keys[mid], key) {
                KeyOrder::Same => {
                    return Ok(mid);
                },
                KeyOrder::Before => {
                    assert forall|i: int| 0 <= i < mid + 1 implies lex_lt(
                        #[trigger] self@[i].0,
                        key@,
                    ) by {
                        if i < mid {
                            lemma_lex_transitive(self@[i].0, self@[mid as int].0, key@);
                        }
                    }
                    lo = mid + 1;
                },
                KeyOrder::After => {
                    assert forall|i: int| mid <= i < self@.len() implies lex_lt(
                        key@,
                        #[trigger] self@[i].0,
                    ) by {
                        if i > mid {
                            lemma_lex_transitive(key@, self@[mid as int].0, self@[i].0);
                        }
                    }
                    hi = mid;
                },
            }
        }
        Err(lo)
    }

    /// The value stored under `key`.
    pub fn get_chars(&self, key: &Vec<char>) -> (r: Option<&V>)
        requires
            self.wf(),
        ensures
            match r {
                Some(v) => lookup(self@, key@) == Some(*v),
                None => lookup(self@, key@) is None,
            },
    {
        match self.search(key) {
            Ok(i) => {
                proof {
                    lemma_lookup_at(self@, i as int);
                }
                Some(&self.vals[i])
            },
            Err(p) => {
                proof {
                    assert forall|i: int| 0 <= i < self@.len() implies self@[i].0 != key@ by {
                        if self@[i].0 == key@ {
                            lemma_lex_irreflexive(key@);
                        }
                    }
                }
                None
            },
        }
    }

    /// Position of `key` in key order, if stored.
    pub fn index_of(&self, key: &Vec<char>) -> (r: Option<usize>)
        requires
            self.wf(),
        ensures
            match r {
                Some(i) => i < self@.len() && self@[i as int].0 == key@,
                None => lookup(self@, key@) is None,
            },
    {
        match self.search(key) {
            Ok(i) => Some(i),
            Err(p) => {
                proof {
                    assert forall|i: int| 0 <= i < self@.len() implies self@[i].0 != key@ by {
                        if self@[i].0 == key@ {
                            lemma_lex_irreflexive(key@);
                        }
                    }
                }
                None
            },
        }
    }

    /// The value stored under `key`.
    pub fn get(&self, key: &str) -> (r: Option<&V>)
        requires
            self.wf(),
        ensures
            match r {
                Some(v) => lookup(self@, key@) == Some(*v),
                None => lookup(self@, key@) is None,
            },
    {
        let k = chars_of(key);
        self.get_chars(&k)
    }

    /// Whether `key` is stored.
    pub fn contains_key(&self, key: &str) -> (b: bool)
        requires
            self.wf(),
        ensures
            b == lookup(self@, key@) is Some,
    {
        self.get(key).is_some()
    }

    /// Store `value` under `key`, replacing any previous value.
    pub fn insert(&mut self, key: &str, value: V)
        requires
            old(self).wf(),
        ensures
            final(self).wf(),
            lookup(final(self)@, key@) == Some(value),
            forall|k: Seq<char>| k != key@ ==> lookup(final(self)@, k) == lookup(old(self)@, k),
            final(self)@.len() == old(self)@.len() + if lookup(old(self)@, key@) is Some {
                0int
            } else {
                1int
            },
    {
        let k = chars_of(key);
        let ghost old_view = self@;
        match self.search(&k) {
            Ok(i) => {
                self.vals.set(i, value);
                proof {
                    assert(self@ =~= old_view.update(i as int, (key@, value)));
                    lemma_lookup_at(old_view, i as int);
                    lemma_lookup_at(self@, i as int);
                    assert forall|k2: Seq<char>| k2 != key@ implies lookup(self@, k2) == lookup(
                        old_view,
                        k2,
                    ) by {
                        if exists|j: int| 0 <= j < old_view.len() && old_view[j].0 == k2 {
                            let j = choose|j: int| 0 <= j < old_view.len() && old_view[j].0 == k2;
                            lemma_lookup_at(old_view, j);
                            lemma_lookup_at(self@, j);
                        }
                    }
                }
            },
            Err(p) => {
                let name = key.to_owned();
                self.keys.insert(p, k);
                self.names.insert(p, name);
                self.vals.insert(p, value);
                proof {
                    assert(self@ =~= old_view.insert(p as int, (key@, value)));
                    assert forall|i: int| 0 <= i < self.vals@.len() implies #[trigger] self.names@[i]@
                        == self.keys@[i]@ by {
                        if i < p {
                        } else if i > p {
                            assert(self.names@[i] == old(self).names@[i - 1]);
                        }
                    }
                    assert forall|i: int, j: int| 0 <= i < j < self@.len() implies lex_lt(
                        self@[i].0,
                        self@[j].0,
                    ) by {
                        if j < p {
                        } else if j == p {
                            assert(self@[i] == old_view[i]);
                        } else if i == p {
                            assert(self@[j] == old_view[j - 1]);
                        } else if i < p {
                            assert(self@[j] == old_view[j - 1]);
                        } else {
                            assert(self@[j] == old_view[j - 1]);
                            assert(self@[i] == old_view[i - 1]);
                        }
                    }
                    lemma_lookup_at(self@, p as int);
                    assert forall|i: int| 0 <= i < old_view.len() implies old_view[i].0 != key@ by {
                        if old_view[i].0 == key@ {
                            lemma_lex_irreflexive(key@);
                        }
                    }
                    assert forall|k2: Seq<char>| k2 != key@ implies lookup(self@, k2) == lookup(
                        old_view,
                        k2,
                    ) by {
                        if exists|j: int| 0 <= j < old_view.len() && old_view[j].0 == k2 {
                            let j = choose|j: int| 0 <= j < old_view.len() && old_view[j].0 == k2;
                            lemma_lookup_at(old_view, j);
                            if j < p {
                                lemma_lookup_at(self@, j);
                            } else {
                                assert(self@[j + 1] == old_view[j]);
                                lemma_lookup_at(self@, j + 1);
                            }
                        } else {
                            assert forall|j: int| 0 <= j < self@.len() implies self@[j].0 != k2 by {
                                if j < p {
                                    assert(self@[j] == old_view[j]);
                                } else if j > p {
                                    assert(self@[j] == old_view[j - 1]);
                                }
                            }
                        }
                    }
                }
            },
        }
    }
}

impl<T> StrMap<Vec<T>> {
    /// Push `item` onto the list stored under `key` (an empty list when the
    /// key is new).
    pub fn push_to(&mut self, key: &str, item: T)
        requires
            old(self).wf(),
        ensures
            final(self).wf(),
            lookup(final(self)@, key@) matches Some(v) && v@ == match lookup(old(self)@, key@) {
                Some(w) => w@,
                None => Seq::<T>::empty(),
            }.push(item),
            forall|k: Seq<char>| k != key@ ==> lookup(final(self)@, k) == lookup(old(self)@, k),
    {
        let k = chars_of(key);
        match self.index_of(&k) {
            Some(i) => {
                let ghost old_view = self@;
                proof {
                    lemma_lookup_at(old_view, i as int);
                }
                let mut list: Vec<T> = Vec::new();
                std::mem::swap(&mut list, &mut self.vals[i]);
                list.push(item);
                self.vals.set(i, list);
                proof {
                    assert(self@ =~= old_view.update(i as int, (key@, self.vals@[i as int])));
                    lemma_lookup_at(self@, i as int);
                    assert forall|k2: Seq<char>| k2 != key@ implies lookup(self@, k2) == lookup(
                        old_view,
                        k2,
                    ) by {
                        if exists|j: int| 0 <= j < old_view.len() && old_view[j].0 == k2 {
                            let j = choose|j: int| 0 <= j < old_view.len() && old_view[j].0 == k2;
                            lemma_lookup_at(old_view, j);
                            lemma_lookup_at(self@, j);
                        }
                    }
                }
            },
            None => {
                let mut list = Vec::new();
                list.push(item);
                self.insert(key, list);
            },
        }
    }
}

impl StrMap<String> {
    /// A copy holding the same entries.
    pub fn clone_map(&self) -> (r: Self)
        requires
            self.wf(),
        ensures
            r.wf(),
            r@ == self@,
    {
        let mut keys: Vec<Vec<char>> = Vec::new();
        let mut names: Vec<String> = Vec::new();
        let mut vals: Vec<String> = Vec::new();
        let mut i: usize = 0;
        while i < self.vals.len()
            invariant
                self.wf(),
                i <= self.vals@.len(),
                keys@.len() == i,
                names@.len() == i,
                vals@.len() == i,
                forall|j: int| 0 <= j < i ==> (#[trigger] keys@[j])@ == self.keys@[j]@,
                forall|j: int| 0 <= j < i ==> (#[trigger] names@[j])@ == self.names@[j]@,
                forall|j: int| 0 <= j < i ==> #[trigger] vals@[j] == self.vals@[j],
            decreases self.vals@.len() - i,
        {
            let k = &self.keys[i];
            keys.push(crate::text::copy_prefix(k, k.len()));
            assert(k@.take(k@.len() as int) =~= k@);
            names.push(self.names[i].clone());
            vals.push(self.vals[i].clone());
            i = i + 1;
        }
        let r = StrMap { keys, names, vals };
        assert(r@ =~= self@);
        r
    }
}

} // verus!
