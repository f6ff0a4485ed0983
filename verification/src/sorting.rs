//! Stable insertion sort of index entries by a `(rank, text, text)` key —
//! what the catalog queries order their rows by.

use vstd::prelude::*;

use crate::text::{KeyOrder, chars_of, compare_chars, lex_lt};

verus! {

/// An entry to sort: its key (a rank, then two texts) and the position of
/// the row it stands for.
pub struct Keyed {
    pub rank: u64,
    pub primary: String,
    pub secondary: String,
    pub index: usize,
}

/// An entry read at text level: rank, texts and row position.
pub open spec fn keyed_view(k: Keyed) -> (int, Seq<char>, Seq<char>, int) {
    (k.rank as int, k.primary@, k.secondary@, k.index as int)
}

/// Entries read at text level.
pub open spec fn keyed_views(s: Seq<Keyed>) -> Seq<(int, Seq<char>, Seq<char>, int)> {
    s.map_values(|k: Keyed| keyed_view(k))
}

/// The key of an entry.
pub open spec fn key_of(k: (int, Seq<char>, Seq<char>, int)) -> (int, Seq<char>, Seq<char>) {
    (k.0, k.1, k.2)
}

/// `a` sorts at or before `b`: by rank, then by the first text, then by
/// the second (code-point order).
pub open spec fn key_le(a: (int, Seq<char>, Seq<char>), b: (int, Seq<char>, Seq<char>)) -> bool {
    a.0 < b.0 || (a.0 == b.0 && (lex_lt(a.1, b.1) || (a.1 == b.1 && !lex_lt(b.2, a.2))))
}

/// `x` inserted after every entry that sorts at or before it.
pub open spec fn insert_keyed(s: Seq<(int, Seq<char>, Seq<char>, int)>, x: (int, Seq<char>, Seq<char>, int)) -> Seq<
    (int, Seq<char>, Seq<char>, int),
>
    decreases s.len(),
{
    if s.len() == 0 {
        seq![x]
    } else if key_le(key_of(s.last()), key_of(x)) {
        s.push(x)
    } else {
        insert_keyed(s.drop_last(), x).push(s.last())
    }
}

/// Stable sort by key.
pub open spec fn sort_keyed(s: Seq<(int, Seq<char>, Seq<char>, int)>) -> Seq<(int, Seq<char>, Seq<char>, int)>
    decreases s.len(),
{
    if s.len() == 0 {
        Seq::empty()
    } else {
        insert_keyed(sort_keyed(s.drop_last()), s.last())
    }
}

/// Entries in key order.
pub open spec fn keyed_sorted(s: Seq<(int, Seq<char>, Seq<char>, int)>) -> bool {
    forall|i: int, j: int| 0 <= i < j < s.len() ==> key_le(key_of(s[i]), key_of(s[j]))
}

fn sorts_at_or_before(a: &Keyed, b: &Keyed) -> (r: bool)
    ensures
        r == key_le(key_of(keyed_view(*a)), key_of(keyed_view(*b))),
{
    if a.rank != b.rank {
        return a.rank < b.rank;
    }
    let a1 = chars_of(a.primary.as_str());
    let b1 = chars_of(b.primary.as_str());
    match compare_chars(&a1, &b1) {
        KeyOrder::Before => true,
        KeyOrder::After => false,
        KeyOrder::Same => {
            let a2 = chars_of(a.secondary.as_str());
            let b2 = chars_of(b.secondary.as_str());
            match compare_chars(&b2, &a2) {
                KeyOrder::Before => false,
                _ => true,
            }
        },
    }
}

/// Insertion after the last entry at or before `x`, read positionally.
proof fn lemma_insert_at(s: Seq<(int, Seq<char>, Seq<char>, int)>, x: (int, Seq<char>, Seq<char>, int), pos: int)
    requires
        0 <= pos <= s.len(),
        pos == 0 || key_le(key_of(s[pos - 1]), key_of(x)),
        forall|q: int| pos <= q < s.len() ==> !key_le(key_of(#[trigger] s[q]), key_of(x)),
    ensures
        insert_keyed(s, x) == s.take(pos).push(x) + s.skip(pos),
    decreases s.len() - pos,
{
    if s.len() == 0 {
        assert(s.take(0).push(x) + s.skip(0) =~= seq![x]);
    } else if pos == s.len() {
        assert(s.take(pos).push(x) + s.skip(pos) =~= s.push(x));
    } else {
        assert(!key_le(key_of(s.last()), key_of(x)));
        let t = s.drop_last();
        if pos == t.len() {
            assert(insert_keyed(t, x) == t.push(x)) by {
                if t.len() > 0 {
                    assert(key_le(key_of(t.last()), key_of(x)));
                }
            }
        } else {
            lemma_insert_at(t, x, pos);
        }
        assert(insert_keyed(t, x).push(s.last()) =~= s.take(pos).push(x) + s.skip(pos));
    }
}

/// Sort entries by key, keeping equal keys in arrival order.
pub fn sort_entries(v: Vec<Keyed>) -> (r: Vec<Keyed>)
    ensures
        keyed_views(r@) == sort_keyed(keyed_views(v@)),
{
    let mut out: Vec<Keyed> = Vec::new();
    let mut rest = v;
    let ghost orig = keyed_views(rest@);
    let mut i: usize = 0;
    let n = rest.len();
    assert(keyed_views(rest@) =~= orig.skip(0));
    assert(keyed_views(out@) =~= sort_keyed(orig.take(0)));
    while i < n
        invariant
            n == orig.len(),
            i <= n,
            keyed_views(rest@) == orig.skip(i as int),
            keyed_views(out@) == sort_keyed(orig.take(i as int)),
        decreases n - i,
    {
        let ghost r0 = rest@;
        assert(rest@.len() == keyed_views(rest@).len());
        let x = rest.remove(0);
        assert(x == r0[0]);
        assert(keyed_view(x) == keyed_views(r0)[0]);
        assert(keyed_view(x) == orig[i as int]);
        assert(rest@ =~= r0.drop_first());
        assert(keyed_views(rest@) =~= keyed_views(r0).drop_first());
        assert(orig.skip(i as int).drop_first() =~= orig.skip(i + 1));
        let ghost s = keyed_views(out@);
        let mut pos = out.len();
        while pos > 0 && !sorts_at_or_before(&out[pos - 1], &x)
            invariant
                pos <= out@.len(),
                keyed_views(out@) == s,
                forall|q: int| pos <= q < s.len() ==> !key_le(key_of(#[trigger] s[q]), key_of(keyed_view(x))),
            decreases pos,
        {
            assert(s[pos - 1] == keyed_view(out@[pos - 1]));
            pos = pos - 1;
        }
        proof {
            if pos > 0 {
                assert(s[pos - 1] == keyed_view(out@[pos - 1]));
            }
            lemma_insert_at(s, keyed_view(x), pos as int);
            assert(orig.take(i + 1).drop_last() =~= orig.take(i as int));
            assert(orig.take(i + 1).last() == keyed_view(x));
        }
        let ghost o0 = out@;
        out.insert(pos, x);
        assert(keyed_views(out@) =~= s.take(pos as int).push(keyed_view(x)) + s.skip(pos as int)) by {
            assert(out@ =~= o0.take(pos as int).push(x) + o0.skip(pos as int));
        }
        i = i + 1;
    }
    assert(orig.take(n as int) =~= orig);
    out
}

// ── Laws ────────────────────────────────────────────────────────────────────

proof fn lemma_key_le_total(a: (int, Seq<char>, Seq<char>), b: (int, Seq<char>, Seq<char>))
    ensures
        key_le(a, b) || key_le(b, a),
{
    crate::text::lemma_lex_total(a.1, b.1);
    crate::text::lemma_lex_total(a.2, b.2);
    if a.1 == b.1 && lex_lt(b.2, a.2) {
        crate::text::lemma_lex_asymmetric(b.2, a.2);
    }
}

proof fn lemma_key_le_trans(
    a: (int, Seq<char>, Seq<char>),
    b: (int, Seq<char>, Seq<char>),
    c: (int, Seq<char>, Seq<char>),
)
    requires
        key_le(a, b),
        key_le(b, c),
    ensures
        key_le(a, c),
{
    if a.0 == b.0 && b.0 == c.0 {
        if lex_lt(a.1, b.1) && lex_lt(b.1, c.1) {
            crate::text::lemma_lex_transitive(a.1, b.1, c.1);
        } else if a.1 == b.1 && b.1 == c.1 {
            crate::text::lemma_lex_total(a.2, c.2);
            if lex_lt(c.2, a.2) {
                crate::text::lemma_lex_total(b.2, a.2);
                if lex_lt(b.2, a.2) {
                } else {
                    crate::text::lemma_lex_total(c.2, b.2);
                    if lex_lt(c.2, b.2) {
                    } else if c.2 == b.2 {
                    } else {
                        crate::text::lemma_lex_transitive(b.2, c.2, a.2);
                    }
                }
            }
        }
    }
}

proof fn lemma_insert_keeps_sorted(s: Seq<(int, Seq<char>, Seq<char>, int)>, x: (int, Seq<char>, Seq<char>, int))
    requires
        keyed_sorted(s),
    ensures
        keyed_sorted(insert_keyed(s, x)),
        insert_keyed(s, x).len() == s.len() + 1,
        forall|i: int|
            0 <= i < insert_keyed(s, x).len() ==> #[trigger] insert_keyed(s, x)[i] == x || s.contains(
                insert_keyed(s, x)[i],
            ),
    decreases s.len(),
{
    if s.len() > 0 {
        let t = s.drop_last();
        assert(keyed_sorted(t));
        if !key_le(key_of(s.last()), key_of(x)) {
            lemma_insert_keeps_sorted(t, x);
            let u = insert_keyed(t, x);
            lemma_key_le_total(key_of(s.last()), key_of(x));
            assert forall|i: int| 0 <= i < u.len() implies key_le(key_of(#[trigger] u[i]), key_of(s.last())) by {
                if u[i] == x {
                } else {
                    assert(t.contains(u[i]));
                    let k = choose|k: int| 0 <= k < t.len() && t[k] == u[i];
                    assert(s[k] == t[k]);
                }
            }
            assert forall|i: int| 0 <= i < u.len() implies #[trigger] u.push(s.last())[i] == x || s.contains(
                u.push(s.last())[i],
            ) by {
                if u[i] != x {
                    let k = choose|k: int| 0 <= k < t.len() && t[k] == u[i];
                    assert(s[k] == t[k]);
                }
            }
            assert(s.contains(s.last()));
        } else {
            assert forall|i: int| 0 <= i < s.len() implies key_le(key_of(#[trigger] s[i]), key_of(x)) by {
                if i < s.len() - 1 {
                    lemma_key_le_trans(key_of(s[i]), key_of(s.last()), key_of(x));
                }
            }
            assert forall|i: int| 0 <= i < s.len() implies #[trigger] s.push(x)[i] == x || s.contains(
                s.push(x)[i],
            ) by {
                assert(s.push(x)[i] == s[i]);
            }
        }
    }
}

/// The sort yields entries in key order, one for each entry given.
pub proof fn lemma_sort_sorted(s: Seq<(int, Seq<char>, Seq<char>, int)>)
    ensures
        keyed_sorted(sort_keyed(s)),
        sort_keyed(s).len() == s.len(),
    decreases s.len(),
{
    if s.len() > 0 {
        lemma_sort_sorted(s.drop_last());
        lemma_insert_keeps_sorted(sort_keyed(s.drop_last()), s.last());
    }
}

} // verus!

verus! {

proof fn lemma_insert_members(s: Seq<(int, Seq<char>, Seq<char>, int)>, x: (int, Seq<char>, Seq<char>, int))
    ensures
        insert_keyed(s, x).len() == s.len() + 1,
        forall|i: int|
            0 <= i < insert_keyed(s, x).len() ==> #[trigger] insert_keyed(s, x)[i] == x || s.contains(
                insert_keyed(s, x)[i],
            ),
    decreases s.len(),
{
    if s.len() > 0 {
        let t = s.drop_last();
        lemma_insert_members(t, x);
        if !key_le(key_of(s.last()), key_of(x)) {
            let u = insert_keyed(t, x);
            assert forall|i: int| 0 <= i < u.push(s.last()).len() implies #[trigger] u.push(s.last())[i] == x
                || s.contains(u.push(s.last())[i]) by {
                if i < u.len() {
                    if u[i] != x {
                        let k = choose|k: int| 0 <= k < t.len() && t[k] == u[i];
                        assert(s[k] == t[k]);
                    }
                } else {
                    assert(s[s.len() - 1] == s.last());
                }
            }
        } else {
            assert forall|i: int| 0 <= i < s.push(x).len() implies #[trigger] s.push(x)[i] == x || s.contains(
                s.push(x)[i],
            ) by {
                if i < s.len() {
                    assert(s.push(x)[i] == s[i]);
                }
            }
        }
    }
}

/// Every sorted entry is one of the entries given.
pub proof fn lemma_sort_members(s: Seq<(int, Seq<char>, Seq<char>, int)>)
    ensures
        sort_keyed(s).len() == s.len(),
        forall|i: int| 0 <= i < sort_keyed(s).len() ==> s.contains(#[trigger] sort_keyed(s)[i]),
    decreases s.len(),
{
    if s.len() > 0 {
        let t = s.drop_last();
        lemma_sort_members(t);
        lemma_insert_members(sort_keyed(t), s.last());
        assert forall|i: int| 0 <= i < sort_keyed(s).len() implies s.contains(#[trigger] sort_keyed(s)[i]) by {
            let e = sort_keyed(s)[i];
            if e == s.last() {
                assert(s[s.len() - 1] == e);
            } else {
                let k = choose|k: int| 0 <= k < sort_keyed(t).len() && sort_keyed(t)[k] == e;
                let m = choose|m: int| 0 <= m < t.len() && t[m] == sort_keyed(t)[k];
                assert(s[m] == t[m]);
            }
        }
    }
}

} // verus!
