//! Short-lived pending entries of the sign-in flow (OAuth `state` → the
//! desktop's pending login, one-time login code → user id): each entry
//! carries an expiry, expired entries are purged on every access, and a
//! taken entry is gone.
//!
//! Time is handed in as milliseconds on a monotonic clock the caller reads.

use vstd::prelude::*;

use crate::strmap::lookup;
use crate::text::str_eq;

verus! {

/// A value waiting to be picked up, until `expires_ms`.
pub struct Pending<T> {
    pub value: T,
    pub expires_ms: u64,
}

/// The entries of `m` that have not expired at `now`.
pub open spec fn unexpired<T>(m: Map<Seq<char>, Pending<T>>, now: u64) -> Map<Seq<char>, Pending<T>> {
    Map::new(|k: Seq<char>| m.dom().contains(k) && m[k].expires_ms > now, |k: Seq<char>| m[k])
}

/// What taking `key` at `now` hands back from `m`.
pub open spec fn taken<T>(m: Map<Seq<char>, Pending<T>>, key: Seq<char>, now: u64) -> Option<T> {
    if unexpired(m, now).dom().contains(key) {
        Some(m[key].value)
    } else {
        None
    }
}

/// No key occurs twice.
pub open spec fn keys_distinct<T>(e: Seq<(Seq<char>, Pending<T>)>) -> bool {
    forall|i: int, j: int| 0 <= i < j < e.len() ==> e[i].0 != e[j].0
}

/// The entry stored under `e[i].0` is `e[i]`'s.
proof fn lemma_lookup_distinct<T>(e: Seq<(Seq<char>, Pending<T>)>, i: int)
    requires
        keys_distinct(e),
        0 <= i < e.len(),
    ensures
        lookup(e, e[i].0) == Some(e[i].1),
{
    let j = choose|j: int| 0 <= j < e.len() && e[j].0 == e[i].0;
    if j < i {
        assert(e[j].0 != e[i].0);
    } else if i < j {
        assert(e[i].0 != e[j].0);
    }
}

/// A map from keys to pending entries.
pub struct PendingMap<T> {
    entries: Vec<(String, Pending<T>)>,
}

impl<T> PendingMap<T> {
    /// The stored entries, keys as text.
    pub closed spec fn entries_view(&self) -> Seq<(Seq<char>, Pending<T>)> {
        Seq::new(self.entries@.len(), |i: int| (self.entries@[i].0@, self.entries@[i].1))
    }

    /// No key is stored twice.
    pub closed spec fn wf(&self) -> bool {
        keys_distinct(self.entries_view())
    }

    /// An empty map.
    pub fn new() -> (r: Self)
        ensures
            r.wf(),
            r@ == Map::<Seq<char>, Pending<T>>::empty(),
    {
        let r = PendingMap { entries: Vec::new() };
        assert(r@ =~= Map::<Seq<char>, Pending<T>>::empty());
        r
    }

    /// Drop every entry that has expired at `now`.
    fn purge(&mut self, now: u64)
        requires
            old(self).wf(),
        ensures
            final(self).wf(),
            final(self)@ == unexpired(old(self)@, now),
    {
        let ghost orig = self.entries_view();
        let mut rest: Vec<(String, Pending<T>)> = Vec::new();
        std::mem::swap(&mut rest, &mut self.entries);
        let mut kept: Vec<(String, Pending<T>)> = Vec::new();
        let ghost mut src: Seq<int> = Seq::empty();
        while rest.len() > 0
            invariant
                keys_distinct(orig),
                rest@.len() <= orig.len(),
                forall|i: int| 0 <= i < rest@.len() ==> (#[trigger] rest@[i]).0@ == orig[i].0 && rest@[i].1 == orig[i].1,
                src.len() == kept@.len(),
                forall|j: int|
                    0 <= j < kept@.len() ==> rest@.len() <= #[trigger] src[j] < orig.len() && kept@[j].0@ == orig[src[j]].0
                        && kept@[j].1 == orig[src[j]].1 && orig[src[j]].1.expires_ms > now,
                forall|a: int, b: int| 0 <= a < b < kept@.len() ==> src[a] > src[b],
                forall|i: int|
                    rest@.len() <= i < orig.len() && (#[trigger] orig[i]).1.expires_ms > now ==> exists|j: int|
                        0 <= j < kept@.len() && src[j] == i,
            decreases rest@.len(),
        {
            let ghost src0 = src;
            let ghost klen = kept@.len() as int;
            let e = rest.pop().unwrap();
            let ghost n = rest@.len() as int;
            if e.1.expires_ms > now {
                kept.push(e);
                proof {
                    src = src.push(n);
                    assert forall|i: int|
                        rest@.len() <= i < orig.len() && (#[trigger] orig[i]).1.expires_ms > now implies exists|j: int|
                        0 <= j < kept@.len() && src[j] == i by {
                        if i == n {
                            assert(src[kept@.len() - 1] == i);
                        } else {
                            let j = choose|j: int| 0 <= j < klen && src0[j] == i;
                            assert(src[j] == i);
                        }
                    }
                }
            }
        }
        self.entries = kept;
        proof {
            let ev = self.entries_view();
            assert forall|a: int, b: int| 0 <= a < b < ev.len() implies ev[a].0 != ev[b].0 by {
                assert(src[a] > src[b]);
                assert(orig[src[b]].0 != orig[src[a]].0);
            }
            assert forall|k: Seq<char>| #[trigger] self@.dom().contains(k) implies unexpired(old(self)@, now).dom().contains(k)
                && self@[k] == old(self)@[k] by {
                let j = choose|j: int| 0 <= j < ev.len() && ev[j].0 == k;
                lemma_lookup_distinct(ev, j);
                lemma_lookup_distinct(orig, src[j]);
            }
            assert forall|k: Seq<char>| #[trigger] unexpired(old(self)@, now).dom().contains(k) implies self@.dom().contains(k) by {
                let i = choose|i: int| 0 <= i < orig.len() && orig[i].0 == k;
                lemma_lookup_distinct(orig, i);
                assert(orig[i].1.expires_ms > now);
                let j = choose|j: int| 0 <= j < kept@.len() && src[j] == i;
                assert(ev[j].0 == k);
            }
            assert(self@ =~= unexpired(old(self)@, now));
        }
    }
}

impl<T> PendingMap<T> {
    /// Where `key` is stored, if it is.
    fn find(&self, key: &str) -> (r: Option<usize>)
        requires
            self.wf(),
        ensures
            match r {
                Some(i) => i < self.entries_view().len() && self.entries_view()[i as int].0 == key@,
                None => !self@.dom().contains(key@) && forall|j: int|
                    0 <= j < self.entries_view().len() ==> (#[trigger] self.entries_view()[j]).0 != key@,
            },
    {
        let mut i: usize = 0;
        while i < self.entries.len()
            invariant
                i <= self.entries@.len(),
                forall|j: int| 0 <= j < i ==> (#[trigger] self.entries_view()[j]).0 != key@,
            decreases self.entries@.len() - i,
        {
            if str_eq(self.entries[i].0.as_str(), key) {
                return Some(i);
            }
            i = i + 1;
        }
        None
    }
}

/// Store `value` under `key` until `ttl_ms` after `now_ms`, replacing what
/// was there; entries expired at `now_ms` are dropped first.
pub fn insert_pending<T>(map: &mut PendingMap<T>, key: String, value: T, ttl_ms: u64, now_ms: u64)
    requires
        old(map).wf(),
        now_ms + ttl_ms <= u64::MAX,
    ensures
        final(map).wf(),
        final(map)@ == unexpired(old(map)@, now_ms).insert(key@, Pending { value, expires_ms: (now_ms + ttl_ms) as u64 }),
{
    map.purge(now_ms);
    let ghost mid = map@;
    let ghost ev = map.entries_view();
    let ghost kv = key@;
    let p = Pending { value, expires_ms: now_ms + ttl_ms };
    let ghost pv = p;
    match map.find(key.as_str()) {
        Some(i) => {
            map.entries.set(i, (key, p));
            proof {
                let ev2 = map.entries_view();
                assert(ev2 =~= ev.update(i as int, (kv, pv)));
                assert forall|a: int, b: int| 0 <= a < b < ev2.len() implies ev2[a].0 != ev2[b].0 by {
                    assert(ev[a].0 != ev[b].0);
                }
                lemma_lookup_distinct(ev2, i as int);
                assert forall|k: Seq<char>| k != kv implies #[trigger] lookup(ev2, k) == lookup(ev, k) by {
                    if exists|j: int| 0 <= j < ev2.len() && ev2[j].0 == k {
                        let j = choose|j: int| 0 <= j < ev2.len() && ev2[j].0 == k;
                        lemma_lookup_distinct(ev2, j);
                        lemma_lookup_distinct(ev, j);
                    } else {
                        assert forall|j: int| 0 <= j < ev.len() implies ev[j].0 != k by {
                            assert(ev2[j].0 != k);
                        }
                    }
                }
                assert(map@ =~= mid.insert(kv, pv));
            }
        },
        None => {
            map.entries.push((key, p));
            proof {
                let ev2 = map.entries_view();
                assert(ev2 =~= ev.push((kv, pv)));
                assert forall|a: int, b: int| 0 <= a < b < ev2.len() implies ev2[a].0 != ev2[b].0 by {
                    if b < ev.len() {
                        assert(ev[a].0 != ev[b].0);
                    } else {
                        assert(ev[a].0 != kv);
                    }
                }
                lemma_lookup_distinct(ev2, ev.len() as int);
                assert forall|k: Seq<char>| k != kv implies #[trigger] lookup(ev2, k) == lookup(ev, k) by {
                    if exists|j: int| 0 <= j < ev2.len() && ev2[j].0 == k {
                        let j = choose|j: int| 0 <= j < ev2.len() && ev2[j].0 == k;
                        lemma_lookup_distinct(ev2, j);
                        lemma_lookup_distinct(ev, j);
                    } else {
                        assert forall|j: int| 0 <= j < ev.len() implies ev[j].0 != k by {
                            assert(ev2[j].0 != k);
                        }
                    }
                }
                assert(map@ =~= mid.insert(kv, pv));
            }
        },
    }
}

/// Take what is stored under `key`, if it has not expired at `now_ms`; the
/// entry is gone afterwards, and so is every entry expired at `now_ms`.
pub fn take_pending<T>(map: &mut PendingMap<T>, key: &str, now_ms: u64) -> (r: Option<T>)
    requires
        old(map).wf(),
    ensures
        final(map).wf(),
        r == taken(old(map)@, key@, now_ms),
        final(map)@ == unexpired(old(map)@, now_ms).remove(key@),
{
    map.purge(now_ms);
    let ghost mid = map@;
    let ghost ev = map.entries_view();
    match map.find(key) {
        Some(i) => {
            let (_, p) = map.entries.remove(i);
            proof {
                let ev2 = map.entries_view();
                assert(ev2 =~= ev.remove(i as int));
                assert forall|a: int, b: int| 0 <= a < b < ev2.len() implies ev2[a].0 != ev2[b].0 by {
                    if b < i {
                        assert(ev[a].0 != ev[b].0);
                    } else if a < i {
                        assert(ev[a].0 != ev[b + 1].0);
                    } else {
                        assert(ev[a + 1].0 != ev[b + 1].0);
                    }
                }
                lemma_lookup_distinct(ev, i as int);
                assert forall|k: Seq<char>| k != key@ implies #[trigger] lookup(ev2, k) == lookup(ev, k) by {
                    if exists|j: int| 0 <= j < ev.len() && ev[j].0 == k {
                        let j = choose|j: int| 0 <= j < ev.len() && ev[j].0 == k;
                        lemma_lookup_distinct(ev, j);
                        let j2 = if j < i { j } else { j - 1 };
                        assert(ev2[j2] == ev[j]);
                        lemma_lookup_distinct(ev2, j2);
                    } else {
                        assert forall|j: int| 0 <= j < ev2.len() implies ev2[j].0 != k by {
                            if j < i {
                                assert(ev2[j] == ev[j]);
                            } else {
                                assert(ev2[j] == ev[j + 1]);
                            }
                        }
                    }
                }
                assert forall|j: int| 0 <= j < ev2.len() implies ev2[j].0 != key@ by {
                    if j < i {
                        assert(ev[j].0 != ev[i as int].0);
                    } else {
                        assert(ev[i as int].0 != ev[j + 1].0);
                    }
                }
                assert(map@ =~= mid.remove(key@));
                assert(mid.dom().contains(key@) && mid[key@] == p);
                assert(unexpired(old(map)@, now_ms).dom().contains(key@));
            }
            Some(p.value)
        },
        None => {
            proof {
                assert(map@ =~= mid.remove(key@));
            }
            None
        },
    }
}

impl<T> View for PendingMap<T> {
    type V = Map<Seq<char>, Pending<T>>;

    closed spec fn view(&self) -> Map<Seq<char>, Pending<T>> {
        Map::new(
            |k: Seq<char>| lookup(self.entries_view(), k) is Some,
            |k: Seq<char>| lookup(self.entries_view(), k).unwrap(),
        )
    }
}

/// What is stored can be taken back until it expires: after storing
/// `value` under `key` at `now1` for `ttl`, a take of `key` at any `now2`
/// before `now1 + ttl` hands back `value`.
pub proof fn lemma_insert_then_take<T>(
    m: Map<Seq<char>, Pending<T>>,
    key: Seq<char>,
    value: T,
    ttl: u64,
    now1: u64,
    now2: u64,
)
    requires
        now1 + ttl <= u64::MAX,
        now2 < now1 + ttl,
    ensures
        taken(unexpired(m, now1).insert(key, Pending { value, expires_ms: (now1 + ttl) as u64 }), key, now2)
            == Some(value),
{
    let m1 = unexpired(m, now1).insert(key, Pending { value, expires_ms: (now1 + ttl) as u64 });
    assert(unexpired(m1, now2).dom().contains(key));
}

/// A take is one-time: after `key` was taken at `now1`, a take of it at
/// any later `now2` hands back nothing (until it is stored again).
pub proof fn lemma_take_is_one_time<T>(m: Map<Seq<char>, Pending<T>>, key: Seq<char>, now1: u64, now2: u64)
    ensures
        taken(unexpired(m, now1).remove(key), key, now2) is None,
{
}

/// An entry past its expiry is never handed out.
pub proof fn lemma_expired_not_taken<T>(m: Map<Seq<char>, Pending<T>>, key: Seq<char>, now: u64)
    requires
        m.dom().contains(key),
        m[key].expires_ms <= now,
    ensures
        taken(m, key, now) is None,
{
}

} // verus!
