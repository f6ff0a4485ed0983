//! Character-level string helpers. Strings are modelled by their character
//! sequence (`s@: Seq<char>`); everything here works on that model.

use vstd::prelude::*;

verus! {

/// Appending one character to a `String` extends its character sequence
/// by that character (std documents `push` as appending `ch` to the end).
pub assume_specification[ String::push ](s: &mut String, ch: char)
    ensures
        final(s)@ == old(s)@.push(ch),
;

/// `i` is the position of the first `c` in `s`.
pub open spec fn is_first(s: Seq<char>, c: char, i: int) -> bool {
    &&& 0 <= i < s.len()
    &&& s[i] == c
    &&& forall|j: int| 0 <= j < i ==> s[j] != c
}

/// Position of the first `c` in `s`, if any.
pub open spec fn find_spec(s: Seq<char>, c: char) -> Option<int> {
    if exists|i: int| is_first(s, c, i) {
        Some(choose|i: int| is_first(s, c, i))
    } else {
        None
    }
}

/// The first occurrence is unique.
pub proof fn lemma_first_unique(s: Seq<char>, c: char, i: int, k: int)
    requires
        is_first(s, c, i),
        is_first(s, c, k),
    ensures
        i == k,
{
}

/// Finding `c` at `i` with none before pins `find_spec`.
pub proof fn lemma_find_is(s: Seq<char>, c: char, i: int)
    requires
        is_first(s, c, i),
    ensures
        find_spec(s, c) == Some(i),
{
    let k = choose|k: int| is_first(s, c, k);
    lemma_first_unique(s, c, i, k);
}

/// `s` with everything from the first `c` on removed (all of `s` when it
/// has no `c`).
pub open spec fn before_first(s: Seq<char>, c: char) -> Seq<char> {
    match find_spec(s, c) {
        Some(i) => s.take(i),
        None => s,
    }
}

/// The characters of `s`, in order.
pub fn chars_of(s: &str) -> (v: Vec<char>)
    ensures
        v@ == s@,
{
    broadcast use vstd::string::group_string_axioms;

    let mut v: Vec<char> = Vec::new();
    for c in it: s.chars()
        invariant
            v@ == it.seq().take(it.index() as int),
            it.seq() == s@,
    {
        v.push(c);
    }
    v
}

/// Append `v[lo..hi]` to `out`.
pub fn push_range(out: &mut String, v: &Vec<char>, lo: usize, hi: usize)
    requires
        lo <= hi <= v@.len(),
    ensures
        final(out)@ == old(out)@ + v@.subrange(lo as int, hi as int),
{
    let mut i = lo;
    while i < hi
        invariant
            lo <= i <= hi <= v@.len(),
            out@ == old(out)@ + v@.subrange(lo as int, i as int),
        decreases hi - i,
    {
        out.push(v[i]);
        i = i + 1;
        assert(v@.subrange(lo as int, i as int) =~= v@.subrange(lo as int, i - 1 as int).push(
            v@[i - 1],
        ));
    }
}

/// A `String` holding exactly the characters `v[lo..hi]`.
pub fn string_of_range(v: &Vec<char>, lo: usize, hi: usize) -> (s: String)
    requires
        lo <= hi <= v@.len(),
    ensures
        s@ == v@.subrange(lo as int, hi as int),
{
    let mut s = String::new();
    push_range(&mut s, v, lo, hi);
    s
}

/// A `String` holding exactly the characters of `v`.
pub fn string_of(v: &Vec<char>) -> (s: String)
    ensures
        s@ == v@,
{
    let s = string_of_range(v, 0, v.len());
    assert(v@.subrange(0, v@.len() as int) =~= v@);
    s
}

/// Position of the first `c` in `v`.
pub fn find_char(v: &Vec<char>, c: char) -> (r: Option<usize>)
    ensures
        match r {
            Some(i) => find_spec(v@, c) == Some(i as int),
            None => find_spec(v@, c) is None,
        },
{
    let mut i: usize = 0;
    while i < v.len()
        invariant
            i <= v@.len(),
            forall|j: int| 0 <= j < i ==> v@[j] != c,
        decreases v@.len() - i,
    {
        if v[i] == c {
            proof {
                lemma_find_is(v@, c, i as int);
            }
            return Some(i);
        }
        i = i + 1;
    }
    None
}

/// Position of the first `c` among `v[..hi]`.
pub fn find_char_upto(v: &Vec<char>, c: char, hi: usize) -> (r: Option<usize>)
    requires
        hi <= v@.len(),
    ensures
        match r {
            Some(i) => find_spec(v@.take(hi as int), c) == Some(i as int),
            None => find_spec(v@.take(hi as int), c) is None,
        },
{
    let mut i: usize = 0;
    while i < hi
        invariant
            i <= hi <= v@.len(),
            forall|j: int| 0 <= j < i ==> v@[j] != c,
        decreases hi - i,
    {
        if v[i] == c {
            proof {
                lemma_find_is(v@.take(hi as int), c, i as int);
            }
            return Some(i);
        }
        i = i + 1;
    }
    None
}

/// A new vector holding `v[..n]`.
pub fn copy_prefix(v: &Vec<char>, n: usize) -> (r: Vec<char>)
    requires
        n <= v@.len(),
    ensures
        r@ == v@.take(n as int),
{
    let mut r: Vec<char> = Vec::new();
    let mut i: usize = 0;
    while i < n
        invariant
            i <= n <= v@.len(),
            r@ == v@.take(i as int),
        decreases n - i,
    {
        r.push(v[i]);
        i = i + 1;
        assert(r@ =~= v@.take(i as int));
    }
    r
}

/// Whether `a` and `b` hold the same characters.
pub fn str_eq(a: &str, b: &str) -> (r: bool)
    ensures
        r == (a@ == b@),
{
    let va = chars_of(a);
    let vb = chars_of(b);
    if va.len() != vb.len() {
        return false;
    }
    let mut i: usize = 0;
    while i < va.len()
        invariant
            va@ == a@,
            vb@ == b@,
            va@.len() == vb@.len(),
            i <= va@.len(),
            forall|j: int| 0 <= j < i ==> va@[j] == vb@[j],
        decreases va@.len() - i,
    {
        if va[i] != vb[i] {
            return false;
        }
        i = i + 1;
    }
    assert(va@ =~= vb@);
    true
}

} // verus!

verus! {

// ── Lexicographic order on character sequences ──────────────────────────────
//
// Code-point lexicographic order — the order `String`'s `Ord` yields, since
// UTF-8 byte order agrees with code-point order.

/// `a` sorts strictly before `b`.
pub open spec fn lex_lt(a: Seq<char>, b: Seq<char>) -> bool
    decreases a.len(),
{
    if a.len() == 0 {
        b.len() > 0
    } else if b.len() == 0 {
        false
    } else if a[0] != b[0] {
        a[0] < b[0]
    } else {
        lex_lt(a.drop_first(), b.drop_first())
    }
}

pub proof fn lemma_lex_irreflexive(a: Seq<char>)
    ensures
        !lex_lt(a, a),
    decreases a.len(),
{
    if a.len() > 0 {
        lemma_lex_irreflexive(a.drop_first());
    }
}

pub proof fn lemma_lex_transitive(a: Seq<char>, b: Seq<char>, c: Seq<char>)
    requires
        lex_lt(a, b),
        lex_lt(b, c),
    ensures
        lex_lt(a, c),
    decreases a.len(),
{
    if a.len() > 0 && b.len() > 0 && c.len() > 0 {
        if a[0] == b[0] && b[0] == c[0] {
            lemma_lex_transitive(a.drop_first(), b.drop_first(), c.drop_first());
        }
    }
}

pub proof fn lemma_lex_total(a: Seq<char>, b: Seq<char>)
    ensures
        a =~= b || lex_lt(a, b) || lex_lt(b, a),
    decreases a.len(),
{
    if a.len() > 0 && b.len() > 0 && a[0] == b[0] {
        lemma_lex_total(a.drop_first(), b.drop_first());
        if a.drop_first() =~= b.drop_first() {
            assert(a =~= seq![a[0]] + a.drop_first());
            assert(b =~= seq![b[0]] + b.drop_first());
        }
    }
}

pub proof fn lemma_lex_asymmetric(a: Seq<char>, b: Seq<char>)
    requires
        lex_lt(a, b),
    ensures
        !lex_lt(b, a),
{
    if lex_lt(b, a) {
        lemma_lex_transitive(a, b, a);
        lemma_lex_irreflexive(a);
    }
}

/// Three-way comparison outcome.
#[derive(Debug, Clone, Copy, PartialEq, Eq, Structural)]
pub enum KeyOrder {
    Before,
    Same,
    After,
}

/// Compare `a` with `b` in code-point lexicographic order.
pub fn compare_chars(a: &Vec<char>, b: &Vec<char>) -> (r: KeyOrder)
    ensures
        r == KeyOrder::Before <==> lex_lt(a@, b@),
        r == KeyOrder::Same <==> a@ == b@,
        r == KeyOrder::After <==> lex_lt(b@, a@),
{
    let mut i: usize = 0;
    while i < a.len() && i < b.len()
        invariant
            i <= a@.len(),
            i <= b@.len(),
            a@.take(i as int) == b@.take(i as int),
        decreases a@.len() - i,
    {
        if a[i] != b[i] {
            proof {
                lemma_lex_common_prefix(a@, b@, i as int);
                lemma_lex_common_prefix(b@, a@, i as int);
            }
            if a[i] < b[i] {
                proof {
                    lemma_lex_asymmetric(a@, b@);
                }
                return KeyOrder::Before;
            } else {
                proof {
                    lemma_lex_asymmetric(b@, a@);
                }
                return KeyOrder::After;
            }
        }
        assert(a@.take(i + 1) =~= a@.take(i as int).push(a@[i as int]));
        assert(b@.take(i + 1) =~= b@.take(i as int).push(b@[i as int]));
        i = i + 1;
    }
    proof {
        lemma_lex_common_prefix(a@, b@, i as int);
        lemma_lex_common_prefix(b@, a@, i as int);
    }
    if a.len() == b.len() {
        assert(a@ =~= a@.take(i as int));
        assert(b@ =~= b@.take(i as int));
        proof {
            lemma_lex_irreflexive(a@);
        }
        KeyOrder::Same
    } else if a.len() < b.len() {
        proof {
            lemma_lex_asymmetric(a@, b@);
        }
        KeyOrder::Before
    } else {
        proof {
            lemma_lex_asymmetric(b@, a@);
        }
        KeyOrder::After
    }
}

/// Comparison after a shared prefix of length `i` reduces to the suffixes.
proof fn lemma_lex_common_prefix(a: Seq<char>, b: Seq<char>, i: int)
    requires
        0 <= i <= a.len(),
        i <= b.len(),
        a.take(i) == b.take(i),
    ensures
        lex_lt(a, b) == lex_lt(a.skip(i), b.skip(i)),
        a.take(i) == b.take(i),
    decreases i,
{
    if i == 0 {
        assert(a.skip(0) =~= a);
        assert(b.skip(0) =~= b);
    } else {
        assert(a[0] == a.take(i)[0]);
        assert(b[0] == b.take(i)[0]);
        assert(a.drop_first().take(i - 1) =~= a.take(i).drop_first());
        assert(b.drop_first().take(i - 1) =~= b.take(i).drop_first());
        lemma_lex_common_prefix(a.drop_first(), b.drop_first(), i - 1);
        assert(a.drop_first().skip(i - 1) =~= a.skip(i));
        assert(b.drop_first().skip(i - 1) =~= b.skip(i));
    }
}

} // verus!

verus! {

// ── Lines and whitespace ────────────────────────────────────────────────────

/// `l` without one trailing `\r`.
pub open spec fn strip_cr(l: Seq<char>) -> Seq<char> {
    if l.len() > 0 && l.last() == '\r' {
        l.drop_last()
    } else {
        l
    }
}

/// The lines of `s` as `str::lines` yields them: split at `\n`, a `\r`
/// right before a `\n` dropped, no empty line after a final `\n`.
pub open spec fn lines_of_spec(s: Seq<char>) -> Seq<Seq<char>>
    decreases s.len(),
{
    if s.len() == 0 {
        Seq::empty()
    } else {
        match find_spec(s, '\n') {
            Some(i) => seq![strip_cr(s.take(i))] + lines_of_spec(s.skip(i + 1)),
            None => seq![s],
        }
    }
}

/// Split `s` into lines (see [`lines_of_spec`]).
pub fn split_lines(s: &str) -> (lines: Vec<String>)
    ensures
        lines@.map_values(|l: String| l@) == lines_of_spec(s@),
{
    let v = chars_of(s);
    let n = v.len();
    let mut out: Vec<String> = Vec::new();
    let mut p: usize = 0;
    assert(v@.skip(0) =~= v@);
    assert(out@.map_values(|l: String| l@) + lines_of_spec(v@) =~= lines_of_spec(v@));
    while p < n
        invariant
            n == v@.len(),
            p <= n,
            out@.map_values(|l: String| l@) + lines_of_spec(v@.skip(p as int)) == lines_of_spec(v@),
        decreases n - p,
    {
        let ghost rest = v@.skip(p as int);
        let mut q = p;
        while q < n && v[q] != '\n'
            invariant
                p <= q <= n,
                n == v@.len(),
                forall|j: int| p <= j < q ==> v@[j] != '\n',
            decreases n - q,
        {
            q = q + 1;
        }
        let mut end = q;
        if q < n && q > p && v[q - 1] == '\r' {
            end = q - 1;
        }
        let line = string_of_range(&v, p, end);
        let ghost before = out@.map_values(|l: String| l@);
        out.push(line);
        proof {
            assert(out@.map_values(|l: String| l@) =~= before.push(line@));
            if q < n {
                assert(is_first(rest, '\n', q - p));
                lemma_find_is(rest, '\n', q - p);
                assert(rest.take(q - p) =~= v@.subrange(p as int, q as int));
                assert(rest.skip(q - p + 1) =~= v@.skip(q + 1));
                assert(line@ =~= strip_cr(rest.take(q - p)));
            } else {
                assert(!exists|i: int| is_first(rest, '\n', i));
                assert(rest =~= v@.subrange(p as int, n as int));
                assert(v@.skip(n as int) =~= Seq::<char>::empty());
            }
            assert(before.push(line@) + lines_of_spec(v@.skip(
                if q < n { q + 1 } else { q as int },
            )) =~= before + lines_of_spec(rest));
        }
        p = if q < n { q + 1 } else { q };
    }
    assert(v@.skip(n as int) =~= Seq::<char>::empty());
    assert(out@.map_values(|l: String| l@) + Seq::<Seq<char>>::empty() =~= out@.map_values(
        |l: String| l@,
    ));
    out
}

/// Unicode `White_Space`, as `char::is_whitespace` defines it.
pub open spec fn is_ws(c: char) -> bool {
    ||| c == ' '
    ||| ('\u{9}' <= c <= '\u{d}')
    ||| c == '\u{85}'
    ||| c == '\u{a0}'
    ||| c == '\u{1680}'
    ||| ('\u{2000}' <= c <= '\u{200a}')
    ||| c == '\u{2028}'
    ||| c == '\u{2029}'
    ||| c == '\u{202f}'
    ||| c == '\u{205f}'
    ||| c == '\u{3000}'
}

pub fn is_whitespace(c: char) -> (b: bool)
    ensures
        b == is_ws(c),
{
    c == ' ' || ('\u{9}' <= c && c <= '\u{d}') || c == '\u{85}' || c == '\u{a0}' || c
        == '\u{1680}' || ('\u{2000}' <= c && c <= '\u{200a}') || c == '\u{2028}' || c
        == '\u{2029}' || c == '\u{202f}' || c == '\u{205f}' || c == '\u{3000}'
}

/// Number of leading whitespace characters.
pub open spec fn lead_ws(s: Seq<char>) -> nat
    decreases s.len(),
{
    if s.len() > 0 && is_ws(s[0]) {
        1 + lead_ws(s.drop_first())
    } else {
        0
    }
}

/// Number of trailing whitespace characters.
pub open spec fn trail_ws(s: Seq<char>) -> nat
    decreases s.len(),
{
    if s.len() > 0 && is_ws(s.last()) {
        1 + trail_ws(s.drop_last())
    } else {
        0
    }
}

pub open spec fn trim_start_spec(s: Seq<char>) -> Seq<char> {
    s.skip(lead_ws(s) as int)
}

pub open spec fn trim_spec(s: Seq<char>) -> Seq<char> {
    let t = trim_start_spec(s);
    t.take(t.len() - trail_ws(t))
}

proof fn lemma_lead_ws_bound(s: Seq<char>)
    ensures
        lead_ws(s) <= s.len(),
    decreases s.len(),
{
    if s.len() > 0 && is_ws(s[0]) {
        lemma_lead_ws_bound(s.drop_first());
    }
}

proof fn lemma_trail_ws_bound(s: Seq<char>)
    ensures
        trail_ws(s) <= s.len(),
    decreases s.len(),
{
    if s.len() > 0 && is_ws(s.last()) {
        lemma_trail_ws_bound(s.drop_last());
    }
}

/// First index at or after `lo` (and before `hi`) holding no whitespace.
pub fn skip_ws(v: &Vec<char>, lo: usize, hi: usize) -> (r: usize)
    requires
        lo <= hi <= v@.len(),
    ensures
        lo <= r <= hi,
        r - lo == lead_ws(v@.subrange(lo as int, hi as int)),
{
    let mut i = lo;
    while i < hi && is_whitespace(v[i])
        invariant
            lo <= i <= hi <= v@.len(),
            lead_ws(v@.subrange(lo as int, hi as int)) == (i - lo) + lead_ws(
                v@.subrange(i as int, hi as int),
            ),
        decreases hi - i,
    {
        assert(v@.subrange(i as int, hi as int).drop_first() =~= v@.subrange(i + 1, hi as int));
        i = i + 1;
    }
    i
}

/// One past the last index before `hi` (and at or after `lo`) holding no
/// whitespace.
pub fn skip_ws_back(v: &Vec<char>, lo: usize, hi: usize) -> (r: usize)
    requires
        lo <= hi <= v@.len(),
    ensures
        lo <= r <= hi,
        hi - r == trail_ws(v@.subrange(lo as int, hi as int)),
{
    let mut j = hi;
    while j > lo && is_whitespace(v[j - 1])
        invariant
            lo <= j <= hi <= v@.len(),
            trail_ws(v@.subrange(lo as int, hi as int)) == (hi - j) + trail_ws(
                v@.subrange(lo as int, j as int),
            ),
        decreases j - lo,
    {
        assert(v@.subrange(lo as int, j as int).drop_last() =~= v@.subrange(lo as int, j - 1));
        j = j - 1;
    }
    j
}

/// The bounds of `v` with surrounding whitespace trimmed.
pub fn trim_bounds(v: &Vec<char>) -> (r: (usize, usize))
    ensures
        r.0 <= r.1 <= v@.len(),
        v@.subrange(r.0 as int, r.1 as int) == trim_spec(v@),
{
    let a = skip_ws(v, 0, v.len());
    let b = skip_ws_back(v, a, v.len());
    proof {
        assert(v@.subrange(0, v@.len() as int) =~= v@);
        let t = trim_start_spec(v@);
        assert(t =~= v@.subrange(a as int, v@.len() as int));
        assert(t.take(t.len() - trail_ws(t)) =~= v@.subrange(a as int, b as int));
    }
    (a, b)
}

} // verus!

verus! {

// ── Decimal rendering, substrings, joining ──────────────────────────────────

/// The digit character for `d < 10`.
pub open spec fn digit_char(d: nat) -> char {
    if d == 0 { '0' } else if d == 1 { '1' } else if d == 2 { '2' } else if d == 3 { '3' }
    else if d == 4 { '4' } else if d == 5 { '5' } else if d == 6 { '6' } else if d == 7 { '7' }
    else if d == 8 { '8' } else { '9' }
}

/// Decimal digits of `n`, no leading zeros.
pub open spec fn dec_nat(n: nat) -> Seq<char>
    decreases n,
{
    if n < 10 {
        seq![digit_char(n)]
    } else {
        dec_nat(n / 10).push(digit_char(n % 10))
    }
}

/// Decimal rendering of `i` (a `-` sign for negatives), as `Display` gives.
pub open spec fn dec_int(i: int) -> Seq<char> {
    if i < 0 {
        seq!['-'] + dec_nat((-i) as nat)
    } else {
        dec_nat(i as nat)
    }
}

fn digit(d: u64) -> (c: char)
    requires
        d < 10,
    ensures
        c == digit_char(d as nat),
{
    if d == 0 { '0' } else if d == 1 { '1' } else if d == 2 { '2' } else if d == 3 { '3' }
    else if d == 4 { '4' } else if d == 5 { '5' } else if d == 6 { '6' } else if d == 7 { '7' }
    else if d == 8 { '8' } else { '9' }
}

/// Append the decimal digits of `n` to `out`.
pub fn push_u64(out: &mut String, n: u64)
    ensures
        final(out)@ == old(out)@ + dec_nat(n as nat),
    decreases n,
{
    if n < 10 {
        out.push(digit(n));
    } else {
        push_u64(out, n / 10);
        out.push(digit(n % 10));
    }
}

/// Append the decimal rendering of `i` to `out`.
pub fn push_i64(out: &mut String, i: i64)
    ensures
        final(out)@ == old(out)@ + dec_int(i as int),
{
    if i < 0 {
        out.push('-');
        let m: u64 = if i == i64::MIN {
            9223372036854775808u64
        } else {
            (-i) as u64
        };
        push_u64(out, m);
        assert(seq!['-'] + dec_nat(m as nat) == dec_int(i as int));
    } else {
        push_u64(out, i as u64);
    }
}

/// `pat` occurs in `s` at `i`.
pub open spec fn occurs_at(s: Seq<char>, pat: Seq<char>, i: int) -> bool {
    0 <= i && i + pat.len() <= s.len() && s.subrange(i, i + pat.len()) == pat
}

pub open spec fn contains_seq(s: Seq<char>, pat: Seq<char>) -> bool {
    exists|i: int| occurs_at(s, pat, i)
}

/// `i` is the first occurrence of `pat` in `s`.
pub open spec fn is_first_at(s: Seq<char>, pat: Seq<char>, i: int) -> bool {
    occurs_at(s, pat, i) && forall|j: int| 0 <= j < i ==> !occurs_at(s, pat, j)
}

pub open spec fn find_seq_spec(s: Seq<char>, pat: Seq<char>) -> Option<int> {
    if exists|i: int| is_first_at(s, pat, i) {
        Some(choose|i: int| is_first_at(s, pat, i))
    } else {
        None
    }
}

/// First occurrence of `pat` in `v` at or after `lo`, relative to `v[lo..]`.
pub fn find_seq_from(v: &Vec<char>, lo: usize, pat: &Vec<char>) -> (r: Option<usize>)
    requires
        lo <= v@.len(),
    ensures
        match r {
            Some(i) => find_seq_spec(v@.skip(lo as int), pat@) == Some(i as int),
            None => find_seq_spec(v@.skip(lo as int), pat@) is None,
        },
{
    let ghost s = v@.skip(lo as int);
    let n = v.len();
    let m = pat.len();
    if m > n - lo {
        proof {
            assert forall|i: int| !is_first_at(s, pat@, i) by {}
        }
        return None;
    }
    if m == 0 {
        proof {
            assert(s.subrange(0, 0) =~= pat@);
            assert(is_first_at(s, pat@, 0));
            let k = choose|k: int| is_first_at(s, pat@, k);
            if k > 0 {
                assert(!occurs_at(s, pat@, 0));
            }
        }
        return Some(0);
    }
    let count = n - lo - m + 1;
    let mut i: usize = 0;
    while i < count
        invariant
            s == v@.skip(lo as int),
            n == v@.len(),
            m == pat@.len(),
            m > 0,
            lo <= n,
            count == n - lo - m + 1,
            i <= count,
            forall|j: int| 0 <= j < i ==> !occurs_at(s, pat@, j),
        decreases count - i,
    {
        let mut j: usize = 0;
        let mut ok = true;
        while j < m
            invariant
                i < count,
                count == n - lo - m + 1,
                n == v@.len(),
                m == pat@.len(),
                lo <= n,
                s == v@.skip(lo as int),
                j <= m,
                ok ==> forall|t: int| 0 <= t < j ==> s[i + t] == pat@[t],
                !ok ==> !occurs_at(s, pat@, i as int),
            decreases m - j,
        {
            if v[lo + i + j] != pat[j] {
                ok = false;
                assert(s.subrange(i as int, i + m)[j as int] != pat@[j as int]);
            }
            j = j + 1;
        }
        if ok {
            assert(s.subrange(i as int, i + m) =~= pat@);
            proof {
                let k = choose|k: int| is_first_at(s, pat@, k);
                assert(is_first_at(s, pat@, i as int));
                if k > i {
                    assert(!occurs_at(s, pat@, i as int));
                }
            }
            return Some(i);
        }
        i = i + 1;
    }
    proof {
        assert forall|k: int| !is_first_at(s, pat@, k) by {
            if k >= i {
                assert(k + pat@.len() > s.len());
            }
        }
    }
    None
}

/// Does `pat` occur in `s`?
pub fn str_contains(s: &str, pat: &str) -> (b: bool)
    ensures
        b == contains_seq(s@, pat@),
{
    let v = chars_of(s);
    let p = chars_of(pat);
    let r = find_seq_from(&v, 0, &p);
    assert(v@.skip(0) =~= v@);
    match r {
        Some(i) => true,
        None => {
            proof {
                if contains_seq(s@, pat@) {
                    lemma_first_occurrence_exists(s@, pat@);
                }
            }
            false
        },
    }
}

/// Any occurrence implies a first one.
pub proof fn lemma_first_occurrence_exists(s: Seq<char>, pat: Seq<char>)
    requires
        contains_seq(s, pat),
    ensures
        exists|i: int| is_first_at(s, pat, i),
{
    let w = choose|i: int| occurs_at(s, pat, i);
    lemma_first_below(s, pat, w);
}

proof fn lemma_first_below(s: Seq<char>, pat: Seq<char>, w: int)
    requires
        occurs_at(s, pat, w),
    ensures
        exists|i: int| is_first_at(s, pat, i),
    decreases w,
{
    if exists|j: int| 0 <= j < w && occurs_at(s, pat, j) {
        let j = choose|j: int| 0 <= j < w && occurs_at(s, pat, j);
        lemma_first_below(s, pat, j);
    } else {
        assert(is_first_at(s, pat, w));
    }
}

/// Parts joined with `sep` between them.
pub open spec fn join_with(parts: Seq<Seq<char>>, sep: Seq<char>) -> Seq<char>
    decreases parts.len(),
{
    if parts.len() == 0 {
        Seq::empty()
    } else if parts.len() == 1 {
        parts[0]
    } else {
        join_with(parts.drop_last(), sep) + sep + parts.last()
    }
}

/// The character sequences of a list of strings.
pub open spec fn texts_of(v: Seq<String>) -> Seq<Seq<char>> {
    v.map_values(|s: String| s@)
}

/// Join strings with `sep` between them.
pub fn join_strings(parts: &Vec<String>, sep: &str) -> (r: String)
    ensures
        r@ == join_with(texts_of(parts@), sep@),
{
    let mut out = String::new();
    let mut i: usize = 0;
    while i < parts.len()
        invariant
            i <= parts@.len(),
            out@ == join_with(texts_of(parts@.take(i as int)), sep@),
        decreases parts@.len() - i,
    {
        if i > 0 {
            out.append(sep);
        }
        out.append(parts[i].as_str());
        proof {
            let t = texts_of(parts@.take(i + 1));
            assert(t.drop_last() =~= texts_of(parts@.take(i as int)));
            if i == 0 {
                assert(t =~= seq![parts@[0]@]);
            }
        }
        i = i + 1;
    }
    assert(parts@.take(parts@.len() as int) =~= parts@);
    out
}

} // verus!

verus! {

// ── Prefixes, suffixes, trimming ────────────────────────────────────────────

/// `p` is a prefix of `s`.
pub open spec fn has_prefix(s: Seq<char>, p: Seq<char>) -> bool {
    p.len() <= s.len() && s.take(p.len() as int) == p
}

/// `p` is a suffix of `s`.
pub open spec fn has_suffix(s: Seq<char>, p: Seq<char>) -> bool {
    p.len() <= s.len() && s.skip(s.len() - p.len()) == p
}

/// A new vector holding `v[lo..hi]`.
pub fn slice_chars(v: &Vec<char>, lo: usize, hi: usize) -> (r: Vec<char>)
    requires
        lo <= hi <= v@.len(),
    ensures
        r@ == v@.subrange(lo as int, hi as int),
{
    let mut r: Vec<char> = Vec::new();
    let mut i = lo;
    while i < hi
        invariant
            lo <= i <= hi <= v@.len(),
            r@ == v@.subrange(lo as int, i as int),
        decreases hi - i,
    {
        r.push(v[i]);
        i = i + 1;
        assert(r@ =~= v@.subrange(lo as int, i as int));
    }
    r
}

/// Whether `v[lo..]` starts with `p`.
pub fn prefix_at(v: &Vec<char>, lo: usize, p: &Vec<char>) -> (b: bool)
    requires
        lo <= v@.len(),
    ensures
        b == has_prefix(v@.skip(lo as int), p@),
{
    let n = v.len();
    if p.len() > n - lo {
        return false;
    }
    let mut j: usize = 0;
    while j < p.len()
        invariant
            n == v@.len(),
            lo + p@.len() <= n,
            j <= p@.len(),
            forall|t: int| 0 <= t < j ==> v@[lo + t] == p@[t],
        decreases p@.len() - j,
    {
        if v[lo + j] != p[j] {
            assert(v@.skip(lo as int).take(p@.len() as int)[j as int] != p@[j as int]);
            return false;
        }
        j = j + 1;
    }
    assert(v@.skip(lo as int).take(p@.len() as int) =~= p@);
    true
}

/// `s` without surrounding whitespace (as `str::trim`).
pub fn trim_str(s: &str) -> (r: String)
    ensures
        r@ == trim_spec(s@),
{
    let v = chars_of(s);
    let (a, b) = trim_bounds(&v);
    string_of_range(&v, a, b)
}

/// `s` without the prefix `p`, when `s` starts with it (as `str::strip_prefix`).
pub fn strip_prefix_str(s: &str, p: &str) -> (r: Option<String>)
    ensures
        r is Some <==> has_prefix(s@, p@),
        r matches Some(x) ==> x@ == s@.skip(p@.len() as int),
{
    let v = chars_of(s);
    let pv = chars_of(p);
    assert(v@.skip(0) =~= v@);
    if prefix_at(&v, 0, &pv) {
        Some(string_of_range(&v, pv.len(), v.len()))
    } else {
        None
    }
}

/// `s` without the suffix `p`, when `s` ends with it (as `str::strip_suffix`).
pub fn strip_suffix_str(s: &str, p: &str) -> (r: Option<String>)
    ensures
        r is Some <==> has_suffix(s@, p@),
        r matches Some(x) ==> x@ == s@.take(s@.len() - p@.len()),
{
    let v = chars_of(s);
    let pv = chars_of(p);
    if pv.len() > v.len() {
        return None;
    }
    let lo = v.len() - pv.len();
    if prefix_at(&v, lo, &pv) {
        assert(v@.skip(lo as int).take(pv@.len() as int) =~= v@.skip(lo as int));
        Some(string_of_range(&v, 0, lo))
    } else {
        assert(v@.skip(lo as int).take(pv@.len() as int) =~= v@.skip(lo as int));
        None
    }
}


/// The pieces of `s` between occurrences of `c`, as `str::split` yields
/// them (empty pieces kept; one piece when `c` does not occur).
pub open spec fn split_char_spec(s: Seq<char>, c: char) -> Seq<Seq<char>>
    decreases s.len(),
{
    match find_spec(s, c) {
        Some(i) => if 0 <= i < s.len() {
            seq![s.take(i)] + split_char_spec(s.skip(i + 1), c)
        } else {
            seq![s]
        },
        None => seq![s],
    }
}

/// Split `s` at every `c` (see [`split_char_spec`]).
pub fn split_char(s: &str, c: char) -> (r: Vec<String>)
    ensures
        texts_of(r@) == split_char_spec(s@, c),
{
    let v = chars_of(s);
    let n = v.len();
    let mut out: Vec<String> = Vec::new();
    let mut p: usize = 0;
    assert(v@.skip(0) =~= v@);
    assert(texts_of(out@) + split_char_spec(v@, c) =~= split_char_spec(v@, c));
    loop
        invariant
            n == v@.len(),
            v@ == s@,
            p <= n,
            texts_of(out@) + split_char_spec(v@.skip(p as int), c) == split_char_spec(v@, c),
        decreases n - p,
    {
        let ghost rest = v@.skip(p as int);
        let mut q = p;
        while q < n && v[q] != c
            invariant
                p <= q <= n,
                n == v@.len(),
                forall|j: int| p <= j < q ==> v@[j] != c,
            decreases n - q,
        {
            q = q + 1;
        }
        let piece = string_of_range(&v, p, q);
        let ghost before = texts_of(out@);
        out.push(piece);
        assert(texts_of(out@) =~= before.push(piece@));
        if q < n {
            proof {
                assert(is_first(rest, c, q - p));
                lemma_find_is(rest, c, q - p);
                assert(rest.take(q - p) =~= v@.subrange(p as int, q as int));
                assert(rest.skip(q - p + 1) =~= v@.skip(q + 1));
                assert(before.push(piece@) + split_char_spec(v@.skip(q + 1), c) =~= before + split_char_spec(rest, c));
            }
            p = q + 1;
        } else {
            proof {
                assert(!exists|i: int| is_first(rest, c, i));
                assert(rest =~= v@.subrange(p as int, n as int));
                assert(before.push(piece@) =~= before + split_char_spec(rest, c));
            }
            return out;
        }
    }
}

} // verus!

verus! {

// ── Concatenation and ASCII case ────────────────────────────────────────────

/// `a` followed by `b`.
pub fn concat(a: &str, b: &str) -> (r: String)
    ensures
        r@ == a@ + b@,
{
    let mut r = a.to_owned();
    let v = chars_of(b);
    push_range(&mut r, &v, 0, v.len());
    assert(v@.subrange(0, v@.len() as int) =~= b@);
    r
}

/// `c` with ASCII `A`–`Z` mapped to `a`–`z`.
pub open spec fn ascii_lower(c: char) -> char {
    if 'A' <= c && c <= 'Z' {
        ((c as u32) + 32) as char
    } else {
        c
    }
}

/// Lowercase one character the way `char::to_ascii_lowercase` does.
pub fn ascii_lower_char(c: char) -> (r: char)
    ensures
        r == ascii_lower(c),
{
    if 'A' <= c && c <= 'Z' {
        let code: u8 = (c as u8) + 32;
        code as char
    } else {
        c
    }
}

/// `s` with ASCII letters lowercased (as `str::to_ascii_lowercase`).
pub fn to_ascii_lowercase(s: &str) -> (r: String)
    ensures
        r@ == s@.map_values(|c: char| ascii_lower(c)),
{
    let v = chars_of(s);
    let mut r = String::new();
    let mut i: usize = 0;
    while i < v.len()
        invariant
            i <= v@.len(),
            v@ == s@,
            r@ == v@.take(i as int).map_values(|c: char| ascii_lower(c)),
        decreases v@.len() - i,
    {
        let c = ascii_lower_char(v[i]);
        r.push(c);
        assert(v@.take(i + 1).map_values(|c: char| ascii_lower(c)) =~= v@.take(i as int).map_values(
            |c: char| ascii_lower(c),
        ).push(ascii_lower(v@[i as int])));
        i = i + 1;
    }
    assert(v@.take(v@.len() as int) =~= v@);
    r
}

} // verus!
