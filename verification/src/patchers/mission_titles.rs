//! Mission title tags: what a pool of contracts sharing one title key has
//! in common (blueprint rewards, solo / once-only / illegal flags, crimestat
//! risk), and the bracketed tags appended to that title.

use vstd::prelude::*;

use crate::catalog::CrimestatRisk;
use crate::cooked::{LocaleMap, resolved_text, strip_at, strip_at_spec};
use crate::format::{Color, apply_color, bracket, colored};
use crate::ops::{PatchOp, PatcherConfig, option_bool, option_str};
use crate::strmap::{StrMap, lemma_lookup_at, lookup};
use crate::patchers::missions::{CrimestatTagMode, crimestat_tag, crimestat_tag_text};
use crate::text::{KeyOrder, chars_of, compare_chars, join_strings, join_with, lex_lt, str_eq, texts_of};

verus! {

// ── Pool members ────────────────────────────────────────────────────────────

/// A blueprint pool a contract rewards from: its name and the GUIDs of the
/// blueprint records it holds.
pub struct BlueprintPool {
    pub pool_name: String,
    pub blueprint_guids: Vec<String>,
}

/// What the title tags read of one contract entry: its flags, whether
/// each flag already varies among the raw contracts the entry folds
/// together (`*_mixed`), its crimestat risk, and its blueprint pools.
pub struct TitleMember {
    pub shareable: bool,
    pub shareable_mixed: bool,
    pub once_only: bool,
    pub once_only_mixed: bool,
    pub illegal: bool,
    pub illegal_mixed: bool,
    pub crimestat: CrimestatRisk,
    pub crimestat_mixed: bool,
    pub blueprint_rewards: Vec<BlueprintPool>,
}

// ── Flag axes ───────────────────────────────────────────────────────────────

/// One flag across a pool: every member agrees on a value, or not.
#[derive(Debug, Clone, Copy, PartialEq, Eq, Structural)]
pub enum TriState {
    Unanimous(bool),
    Mixed,
}

/// A pool axis from `(value, mixed within the entry)` pairs: `Mixed` when
/// any entry mixes within itself or two entries disagree; otherwise the
/// common value (`false` for an empty pool).
pub open spec fn tri_state_of(v: Seq<(bool, bool)>) -> TriState {
    if exists|i: int| 0 <= i < v.len() && (#[trigger] v[i]).1 {
        TriState::Mixed
    } else if exists|i: int, j: int| 0 <= i < v.len() && 0 <= j < v.len() && (#[trigger] v[i]).0 != (#[trigger] v[j]).0 {
        TriState::Mixed
    } else if v.len() == 0 {
        TriState::Unanimous(false)
    } else {
        TriState::Unanimous(v[0].0)
    }
}

impl TriState {
    /// Fold `(value, mixed_within_entry)` pairs into one pool axis.
    pub fn collect(pairs: &Vec<(bool, bool)>) -> (r: TriState)
        ensures
            r == tri_state_of(pairs@),
    {
        let mut value: Option<bool> = None;
        let mut i: usize = 0;
        while i < pairs.len()
            invariant
                i <= pairs@.len(),
                forall|k: int| 0 <= k < i ==> !(#[trigger] pairs@[k]).1,
                i == 0 <==> value is None,
                value matches Some(v) ==> forall|k: int| 0 <= k < i ==> (#[trigger] pairs@[k]).0 == v,
                i > 0 ==> value == Some(pairs@[0].0),
            decreases pairs@.len() - i,
        {
            let (v, mixed) = pairs[i];
            if mixed {
                return TriState::Mixed;
            }
            match value {
                None => {
                    value = Some(v);
                },
                Some(prev) => {
                    if prev != v {
                        assert(pairs@[0].0 != pairs@[i as int].0);
                        return TriState::Mixed;
                    }
                },
            }
            i = i + 1;
        }
        match value {
            None => TriState::Unanimous(false),
            Some(v) => TriState::Unanimous(v),
        }
    }
}

/// The pool's crimestat risk: unanimous, or mixed.
#[derive(Debug, Clone, Copy, PartialEq, Eq, Structural)]
pub enum CrimestatState {
    Unanimous(CrimestatRisk),
    Mixed,
}

/// `Mixed` when any entry mixes risks within itself or two entries differ;
/// otherwise the common risk (`Clear` for an empty pool).
pub open spec fn crimestat_state_of(v: Seq<(CrimestatRisk, bool)>) -> CrimestatState {
    if exists|i: int| 0 <= i < v.len() && (#[trigger] v[i]).1 {
        CrimestatState::Mixed
    } else if exists|i: int, j: int| 0 <= i < v.len() && 0 <= j < v.len() && (#[trigger] v[i]).0 != (#[trigger] v[j]).0 {
        CrimestatState::Mixed
    } else if v.len() == 0 {
        CrimestatState::Unanimous(CrimestatRisk::Clear)
    } else {
        CrimestatState::Unanimous(v[0].0)
    }
}

/// Fold `(risk, mixed_within_entry)` pairs into the pool's crimestat state.
pub fn classify_crimestat(pairs: &Vec<(CrimestatRisk, bool)>) -> (r: CrimestatState)
    ensures
        r == crimestat_state_of(pairs@),
{
    let mut current: Option<CrimestatRisk> = None;
    let mut i: usize = 0;
    while i < pairs.len()
        invariant
            i <= pairs@.len(),
            forall|k: int| 0 <= k < i ==> !(#[trigger] pairs@[k]).1,
            i == 0 <==> current is None,
            current matches Some(c) ==> forall|k: int| 0 <= k < i ==> (#[trigger] pairs@[k]).0 == c,
            i > 0 ==> current == Some(pairs@[0].0),
        decreases pairs@.len() - i,
    {
        let (risk, mixed) = pairs[i];
        if mixed {
            return CrimestatState::Mixed;
        }
        match current {
            None => {
                current = Some(risk);
            },
            Some(prev) => {
                if prev != risk {
                    assert(pairs@[0].0 != pairs@[i as int].0);
                    return CrimestatState::Mixed;
                }
            },
        }
        i = i + 1;
    }
    match current {
        None => CrimestatState::Unanimous(CrimestatRisk::Clear),
        Some(c) => CrimestatState::Unanimous(c),
    }
}

} // verus!

verus! {

// ── Blueprint identity ──────────────────────────────────────────────────────

/// `x` inserted before the first element that sorts after it.
pub open spec fn insert_text(s: Seq<Seq<char>>, x: Seq<char>) -> Seq<Seq<char>>
    decreases s.len(),
{
    if s.len() == 0 {
        seq![x]
    } else if lex_lt(x, s[0]) {
        seq![x] + s
    } else {
        seq![s[0]] + insert_text(s.drop_first(), x)
    }
}

/// `g` in code-point lexicographic order, duplicates kept.
pub open spec fn sort_texts(g: Seq<Seq<char>>) -> Seq<Seq<char>>
    decreases g.len(),
{
    if g.len() == 0 {
        Seq::empty()
    } else {
        insert_text(sort_texts(g.drop_last()), g.last())
    }
}

proof fn lemma_insert_at(s: Seq<Seq<char>>, x: Seq<char>, p: int)
    requires
        0 <= p <= s.len(),
        forall|k: int| 0 <= k < p ==> !lex_lt(x, #[trigger] s[k]),
        p < s.len() ==> lex_lt(x, s[p]),
    ensures
        insert_text(s, x) == s.insert(p, x),
    decreases s.len(),
{
    if s.len() == 0 {
        assert(s.insert(p, x) =~= seq![x]);
    } else if p == 0 {
        assert(s.insert(0, x) =~= seq![x] + s);
    } else {
        let t = s.drop_first();
        assert forall|k: int| 0 <= k < p - 1 implies !lex_lt(x, #[trigger] t[k]) by {
            assert(t[k] == s[k + 1]);
        }
        lemma_insert_at(t, x, p - 1);
        assert(s.insert(p, x) =~= seq![s[0]] + t.insert(p - 1, x));
    }
}

/// The strings of `g`, sorted.
fn sorted_texts(g: &Vec<String>) -> (r: Vec<String>)
    ensures
        texts_of(r@) == sort_texts(texts_of(g@)),
{
    let ghost t = texts_of(g@);
    let mut keys: Vec<Vec<char>> = Vec::new();
    let mut out: Vec<String> = Vec::new();
    let mut i: usize = 0;
    while i < g.len()
        invariant
            i <= g@.len(),
            t == texts_of(g@),
            keys@.len() == out@.len(),
            forall|k: int| 0 <= k < keys@.len() ==> (#[trigger] keys@[k])@ == out@[k]@,
            texts_of(out@) == sort_texts(t.take(i as int)),
        decreases g@.len() - i,
    {
        let x = chars_of(g[i].as_str());
        let mut p: usize = 0;
        let mut found = false;
        while p < keys.len() && !found
            invariant
                p <= keys@.len(),
                forall|k: int| 0 <= k < p ==> !lex_lt(x@, (#[trigger] keys@[k])@),
                found ==> p < keys@.len() && lex_lt(x@, keys@[p as int]@),
            decreases keys@.len() - p + if found { 0int } else { 1int },
        {
            match compare_chars(&x, &keys[p]) {
                KeyOrder::Before => {
                    found = true;
                },
                _ => {
                    p = p + 1;
                },
            }
        }
        let ghost before = texts_of(out@);
        proof {
            assert forall|k: int| 0 <= k < p implies !lex_lt(t[i as int], #[trigger] before[k]) by {
                assert(before[k] == keys@[k]@);
            }
            if p < before.len() {
                assert(before[p as int] == keys@[p as int]@);
            }
            lemma_insert_at(before, t[i as int], p as int);
            assert(t.take(i + 1).drop_last() =~= t.take(i as int));
        }
        let ghost old_keys = keys@;
        let ghost old_out = out@;
        keys.insert(p, x);
        out.insert(p, g[i].clone());
        proof {
            assert(texts_of(out@) =~= before.insert(p as int, t[i as int]));
            assert forall|k: int| 0 <= k < keys@.len() implies (#[trigger] keys@[k])@ == out@[k]@ by {
                if k > p {
                    assert(keys@[k] == old_keys[k - 1]);
                    assert(out@[k] == old_out[k - 1]);
                }
            }
        }
        i = i + 1;
    }
    assert(t.take(g@.len() as int) =~= t);
    out
}

} // verus!

verus! {

/// One pool's identity: its name, `|`, and its blueprint GUIDs sorted and
/// joined with `,`.
pub open spec fn pool_ident(name: Seq<char>, guids: Seq<Seq<char>>) -> Seq<char> {
    name + "|"@ + join_with(sort_texts(guids), ","@)
}

pub open spec fn pool_ident_of(p: BlueprintPool) -> Seq<char> {
    pool_ident(p.pool_name@, texts_of(p.blueprint_guids@))
}

/// The set of pool identities a member rewards from.
pub open spec fn ident_set(m: TitleMember) -> Set<Seq<char>> {
    Set::new(
        |s: Seq<char>|
            exists|k: int| 0 <= k < m.blueprint_rewards@.len() && pool_ident_of(#[trigger] m.blueprint_rewards@[k]) == s,
    )
}

fn pool_identity(pool: &BlueprintPool) -> (r: String)
    ensures
        r@ == pool_ident_of(*pool),
{
    let sorted = sorted_texts(&pool.blueprint_guids);
    let mut out = String::new();
    out.append(pool.pool_name.as_str());
    out.append("|");
    out.append(join_strings(&sorted, ",").as_str());
    out
}

/// Each of a member's pools by identity, in the member's order.
fn blueprint_identity(m: &TitleMember) -> (r: Vec<String>)
    ensures
        r@.len() == m.blueprint_rewards@.len(),
        forall|k: int| 0 <= k < r@.len() ==> (#[trigger] r@[k])@ == pool_ident_of(m.blueprint_rewards@[k]),
{
    let mut r: Vec<String> = Vec::new();
    let mut k: usize = 0;
    while k < m.blueprint_rewards.len()
        invariant
            k <= m.blueprint_rewards@.len(),
            r@.len() == k,
            forall|j: int| 0 <= j < k ==> (#[trigger] r@[j])@ == pool_ident_of(m.blueprint_rewards@[j]),
        decreases m.blueprint_rewards@.len() - k,
    {
        r.push(pool_identity(&m.blueprint_rewards[k]));
        k = k + 1;
    }
    r
}

/// Some string of `v` reads `s`.
pub open spec fn in_texts(v: Seq<String>, s: Seq<char>) -> bool {
    exists|k: int| 0 <= k < v.len() && (#[trigger] v[k])@ == s
}

fn contains_text(v: &Vec<String>, s: &str) -> (r: bool)
    ensures
        r == in_texts(v@, s@),
{
    let mut k: usize = 0;
    while k < v.len()
        invariant
            k <= v@.len(),
            forall|j: int| 0 <= j < k ==> (#[trigger] v@[j])@ != s@,
        decreases v@.len() - k,
    {
        if str_eq(v[k].as_str(), s) {
            return true;
        }
        k = k + 1;
    }
    false
}

/// Every string of `a` occurs in `b`.
fn all_within(a: &Vec<String>, b: &Vec<String>) -> (r: bool)
    ensures
        r == forall|i: int| 0 <= i < a@.len() ==> in_texts(b@, (#[trigger] a@[i])@),
{
    let mut i: usize = 0;
    while i < a.len()
        invariant
            i <= a@.len(),
            forall|j: int| 0 <= j < i ==> in_texts(b@, (#[trigger] a@[j])@),
        decreases a@.len() - i,
    {
        if !contains_text(b, a[i].as_str()) {
            return false;
        }
        i = i + 1;
    }
    true
}

proof fn lemma_ident_set(m: TitleMember, r: Seq<String>)
    requires
        r.len() == m.blueprint_rewards@.len(),
        forall|k: int| 0 <= k < r.len() ==> (#[trigger] r[k])@ == pool_ident_of(m.blueprint_rewards@[k]),
    ensures
        forall|s: Seq<char>| ident_set(m).contains(s) <==> in_texts(r, s),
{
    assert forall|s: Seq<char>| ident_set(m).contains(s) <==> in_texts(r, s) by {
        if ident_set(m).contains(s) {
            let k = choose|k: int| 0 <= k < m.blueprint_rewards@.len() && pool_ident_of(#[trigger] m.blueprint_rewards@[k]) == s;
            assert(r[k]@ == s);
        }
        if in_texts(r, s) {
            let k = choose|k: int| 0 <= k < r.len() && (#[trigger] r[k])@ == s;
            assert(pool_ident_of(m.blueprint_rewards@[k]) == s);
        }
    }
}

/// How a pool's members reward blueprints.
#[derive(Debug, Clone, Copy, PartialEq, Eq, Structural)]
pub enum BlueprintState {
    /// No member rewards any blueprint pool.
    Absent,
    /// Every member rewards the same set of pools.
    AllSamePool,
    /// Every member rewards at least one pool, but the sets differ.
    AllDifferentPools,
    /// Some members reward blueprints and others don't.
    MixedPresence,
}

pub open spec fn blueprint_state_of(ms: Seq<TitleMember>) -> BlueprintState {
    if forall|i: int| 0 <= i < ms.len() ==> (#[trigger] ms[i]).blueprint_rewards@.len() == 0 {
        BlueprintState::Absent
    } else if exists|i: int| 0 <= i < ms.len() && (#[trigger] ms[i]).blueprint_rewards@.len() == 0 {
        BlueprintState::MixedPresence
    } else if forall|i: int| 0 <= i < ms.len() ==> ident_set(#[trigger] ms[i]) == ident_set(ms[0]) {
        BlueprintState::AllSamePool
    } else {
        BlueprintState::AllDifferentPools
    }
}

/// Compare two members' pool sets.
fn same_pools(a: &TitleMember, b: &TitleMember) -> (r: bool)
    ensures
        r <==> ident_set(*a) == ident_set(*b),
{
    let ia = blueprint_identity(a);
    let ib = blueprint_identity(b);
    let r = all_within(&ia, &ib) && all_within(&ib, &ia);
    proof {
        lemma_ident_set(*a, ia@);
        lemma_ident_set(*b, ib@);
        if r {
            assert forall|s: Seq<char>| ident_set(*a).contains(s) <==> ident_set(*b).contains(s) by {
                if in_texts(ia@, s) {
                    let k = choose|k: int| 0 <= k < ia@.len() && (#[trigger] ia@[k])@ == s;
                    assert(in_texts(ib@, ia@[k]@));
                }
                if in_texts(ib@, s) {
                    let k = choose|k: int| 0 <= k < ib@.len() && (#[trigger] ib@[k])@ == s;
                    assert(in_texts(ia@, ib@[k]@));
                }
            }
            assert(ident_set(*a) =~= ident_set(*b));
        } else if ident_set(*a) == ident_set(*b) {
            if exists|i: int| 0 <= i < ia@.len() && !in_texts(ib@, (#[trigger] ia@[i])@) {
                let i = choose|i: int| 0 <= i < ia@.len() && !in_texts(ib@, (#[trigger] ia@[i])@);
                assert(in_texts(ia@, ia@[i]@));
                assert(ident_set(*a).contains(ia@[i]@));
            } else {
                let i = choose|i: int| 0 <= i < ib@.len() && !in_texts(ia@, (#[trigger] ib@[i])@);
                assert(in_texts(ib@, ib@[i]@));
                assert(ident_set(*b).contains(ib@[i]@));
            }
        }
    }
    r
}

/// Classify how the members of a pool reward blueprints.
pub fn classify_blueprints(members: &Vec<TitleMember>) -> (r: BlueprintState)
    ensures
        r == blueprint_state_of(members@),
{
    if members.len() == 0 {
        return BlueprintState::Absent;
    }
    let mut with_count: usize = 0;
    let mut i: usize = 0;
    while i < members.len()
        invariant
            i <= members@.len(),
            with_count <= i,
            with_count == 0 ==> forall|k: int| 0 <= k < i ==> (#[trigger] members@[k]).blueprint_rewards@.len() == 0,
            with_count == i ==> forall|k: int| 0 <= k < i ==> (#[trigger] members@[k]).blueprint_rewards@.len() > 0,
            with_count > 0 ==> exists|k: int| 0 <= k < i && (#[trigger] members@[k]).blueprint_rewards@.len() > 0,
            with_count < i ==> exists|k: int| 0 <= k < i && (#[trigger] members@[k]).blueprint_rewards@.len() == 0,
        decreases members@.len() - i,
    {
        if members[i].blueprint_rewards.len() > 0 {
            with_count = with_count + 1;
        }
        i = i + 1;
    }
    if with_count == 0 {
        return BlueprintState::Absent;
    }
    if with_count < members.len() {
        return BlueprintState::MixedPresence;
    }
    assert(members@[0].blueprint_rewards@.len() > 0);
    let mut j: usize = 1;
    while j < members.len()
        invariant
            1 <= j <= members@.len(),
            forall|k: int| 0 <= k < members@.len() ==> (#[trigger] members@[k]).blueprint_rewards@.len() > 0,
            forall|k: int| 0 <= k < j ==> ident_set(#[trigger] members@[k]) == ident_set(members@[0]),
        decreases members@.len() - j,
    {
        if !same_pools(&members[j - 1], &members[j]) {
            assert(ident_set(members@[j as int]) != ident_set(members@[0]));
            return BlueprintState::AllDifferentPools;
        }
        j = j + 1;
    }
    BlueprintState::AllSamePool
}

} // verus!

verus! {

// ── Pool facts ──────────────────────────────────────────────────────────────

/// What a pool of contracts sharing one title key has in common.
#[derive(Debug, Clone, Copy, PartialEq, Eq, Structural)]
pub struct TitleFacts {
    pub blueprint_state: BlueprintState,
    pub shareable: TriState,
    pub once_only: TriState,
    pub illegal: TriState,
    pub crimestat: CrimestatState,
}

pub open spec fn shareable_pairs(ms: Seq<TitleMember>) -> Seq<(bool, bool)> {
    ms.map_values(|m: TitleMember| (m.shareable, m.shareable_mixed))
}

pub open spec fn once_only_pairs(ms: Seq<TitleMember>) -> Seq<(bool, bool)> {
    ms.map_values(|m: TitleMember| (m.once_only, m.once_only_mixed))
}

pub open spec fn illegal_pairs(ms: Seq<TitleMember>) -> Seq<(bool, bool)> {
    ms.map_values(|m: TitleMember| (m.illegal, m.illegal_mixed))
}

pub open spec fn crimestat_pairs(ms: Seq<TitleMember>) -> Seq<(CrimestatRisk, bool)> {
    ms.map_values(|m: TitleMember| (m.crimestat, m.crimestat_mixed))
}

/// The facts of a pool, from its members in catalog order.
pub open spec fn title_facts_of(ms: Seq<TitleMember>) -> TitleFacts {
    TitleFacts {
        blueprint_state: blueprint_state_of(ms),
        shareable: tri_state_of(shareable_pairs(ms)),
        once_only: tri_state_of(once_only_pairs(ms)),
        illegal: tri_state_of(illegal_pairs(ms)),
        crimestat: crimestat_state_of(crimestat_pairs(ms)),
    }
}

/// Which flag of a member a pool axis reads.
#[derive(Debug, Clone, Copy, PartialEq, Eq, Structural)]
enum FlagAxis {
    Shareable,
    OnceOnly,
    Illegal,
}

spec fn axis_pairs(ms: Seq<TitleMember>, axis: FlagAxis) -> Seq<(bool, bool)> {
    match axis {
        FlagAxis::Shareable => shareable_pairs(ms),
        FlagAxis::OnceOnly => once_only_pairs(ms),
        FlagAxis::Illegal => illegal_pairs(ms),
    }
}

fn flag_pairs(members: &Vec<TitleMember>, axis: FlagAxis) -> (r: Vec<(bool, bool)>)
    ensures
        r@ == axis_pairs(members@, axis),
{
    let mut r: Vec<(bool, bool)> = Vec::new();
    let mut i: usize = 0;
    while i < members.len()
        invariant
            i <= members@.len(),
            r@ =~= axis_pairs(members@.take(i as int), axis),
        decreases members@.len() - i,
    {
        let m = &members[i];
        let pair = match axis {
            FlagAxis::Shareable => (m.shareable, m.shareable_mixed),
            FlagAxis::OnceOnly => (m.once_only, m.once_only_mixed),
            FlagAxis::Illegal => (m.illegal, m.illegal_mixed),
        };
        r.push(pair);
        proof {
            assert(members@.take(i + 1) =~= members@.take(i as int).push(members@[i as int]));
        }
        i = i + 1;
    }
    assert(members@.take(members@.len() as int) =~= members@);
    r
}

fn risk_pairs(members: &Vec<TitleMember>) -> (r: Vec<(CrimestatRisk, bool)>)
    ensures
        r@ == crimestat_pairs(members@),
{
    let mut r: Vec<(CrimestatRisk, bool)> = Vec::new();
    let mut i: usize = 0;
    while i < members.len()
        invariant
            i <= members@.len(),
            r@ =~= crimestat_pairs(members@.take(i as int)),
        decreases members@.len() - i,
    {
        r.push((members[i].crimestat, members[i].crimestat_mixed));
        proof {
            assert(members@.take(i + 1) =~= members@.take(i as int).push(members@[i as int]));
        }
        i = i + 1;
    }
    assert(members@.take(members@.len() as int) =~= members@);
    r
}

impl TitleFacts {
    /// The facts of a pool, from its members in catalog order.
    pub fn build(members: &Vec<TitleMember>) -> (f: TitleFacts)
        ensures
            f == title_facts_of(members@),
    {
        let blueprint_state = classify_blueprints(members);
        let shareable = TriState::collect(&flag_pairs(members, FlagAxis::Shareable));
        let once_only = TriState::collect(&flag_pairs(members, FlagAxis::OnceOnly));
        let illegal = TriState::collect(&flag_pairs(members, FlagAxis::Illegal));
        let crimestat = classify_crimestat(&risk_pairs(members));
        TitleFacts { blueprint_state, shareable, once_only, illegal, crimestat }
    }

    /// A flag other than blueprints varies across the pool.
    pub fn has_non_blueprint_mixing(&self) -> (b: bool)
        ensures
            b == (self.shareable is Mixed || self.once_only is Mixed || self.illegal is Mixed),
    {
        matches!(self.shareable, TriState::Mixed) || matches!(self.once_only, TriState::Mixed)
            || matches!(self.illegal, TriState::Mixed)
    }
}

// ── Title tags ──────────────────────────────────────────────────────────────

/// Which title tags are switched on.
#[derive(Debug, Clone, Copy, PartialEq, Eq, Structural)]
pub struct TitleOptions {
    pub blueprint: bool,
    pub solo: bool,
    pub once: bool,
    pub illegal: bool,
    pub crimestat: CrimestatTagMode,
}

/// The blueprint tag for a pool's blueprint state, if any.
pub open spec fn blueprint_tags(s: BlueprintState) -> Seq<Seq<char>> {
    match s {
        BlueprintState::AllSamePool => seq![colored(Color::Highlight, "["@ + "BP"@ + "]"@)],
        BlueprintState::AllDifferentPools => seq![colored(Color::Highlight, "["@ + "BP*"@ + "]"@)],
        BlueprintState::MixedPresence => seq![colored(Color::Highlight, "["@ + "BP?"@ + "]"@)],
        BlueprintState::Absent => seq![],
    }
}

/// `s` with `t` appended when `c` holds.
pub open spec fn push_if(s: Seq<Seq<char>>, c: bool, t: Seq<char>) -> Seq<Seq<char>> {
    if c {
        s.push(t)
    } else {
        s
    }
}

/// The risk a unanimous crimestat state agrees on (`Clear` when mixed).
pub open spec fn unanimous_risk(c: CrimestatState) -> CrimestatRisk {
    match c {
        CrimestatState::Unanimous(r) => r,
        CrimestatState::Mixed => CrimestatRisk::Clear,
    }
}

/// The crimestat tag shows: its mode is not off and the pool agrees on a
/// risk other than clear.
pub open spec fn shows_crimestat(f: TitleFacts, o: TitleOptions) -> bool {
    o.crimestat != CrimestatTagMode::Off && f.crimestat is Unanimous && unanimous_risk(f.crimestat)
        != CrimestatRisk::Clear
}

/// The title tags in order: blueprints, `[Solo]` (nobody can share),
/// `[Uniq]` (all once-only), `[Illegal]` (all illegal), the crimestat
/// risk, and `[~]` when a non-blueprint flag varies. Only unanimous facts
/// produce explicit tags.
pub open spec fn title_tag_list(f: TitleFacts, o: TitleOptions) -> Seq<Seq<char>> {
    let bp = if o.blueprint {
        blueprint_tags(f.blueprint_state)
    } else {
        seq![]
    };
    let solo = push_if(bp, o.solo && f.shareable == TriState::Unanimous(false), "["@ + "Solo"@ + "]"@);
    let once = push_if(solo, o.once && f.once_only == TriState::Unanimous(true), "["@ + "Uniq"@ + "]"@);
    let illegal = push_if(once, o.illegal && f.illegal == TriState::Unanimous(true), "["@ + "Illegal"@ + "]"@);
    let cs = push_if(illegal, shows_crimestat(f, o), crimestat_tag_text(unanimous_risk(f.crimestat), o.crimestat));
    push_if(
        cs,
        f.shareable is Mixed || f.once_only is Mixed || f.illegal is Mixed,
        "["@ + "~"@ + "]"@,
    )
}

fn push_tag(tags: &mut Vec<String>, tag: String)
    ensures
        texts_of(final(tags)@) == texts_of(old(tags)@).push(tag@),
{
    tags.push(tag);
    proof {
        assert(texts_of(tags@) =~= texts_of(old(tags)@).push(tag@));
    }
}

/// The trailing tag string (no leading space): the tags joined with single
/// spaces; empty when nothing applies.
pub fn render_title_tags(facts: &TitleFacts, opts: TitleOptions) -> (r: String)
    ensures
        r@ == join_with(title_tag_list(*facts, opts), " "@),
{
    let mut tags: Vec<String> = Vec::new();
    if opts.blueprint {
        match facts.blueprint_state {
            BlueprintState::AllSamePool => push_tag(&mut tags, apply_color(Color::Highlight, bracket("BP").as_str())),
            BlueprintState::AllDifferentPools => push_tag(&mut tags, apply_color(Color::Highlight, bracket("BP*").as_str())),
            BlueprintState::MixedPresence => push_tag(&mut tags, apply_color(Color::Highlight, bracket("BP?").as_str())),
            BlueprintState::Absent => {},
        }
    }
    proof {
        assert(texts_of(tags@) =~= if opts.blueprint { blueprint_tags(facts.blueprint_state) } else { seq![] });
    }
    if opts.solo && facts.shareable == TriState::Unanimous(false) {
        push_tag(&mut tags, bracket("Solo"));
    }
    if opts.once && facts.once_only == TriState::Unanimous(true) {
        push_tag(&mut tags, bracket("Uniq"));
    }
    if opts.illegal && facts.illegal == TriState::Unanimous(true) {
        push_tag(&mut tags, bracket("Illegal"));
    }
    match facts.crimestat {
        CrimestatState::Unanimous(risk) => {
            if opts.crimestat != CrimestatTagMode::Off && risk != CrimestatRisk::Clear {
                push_tag(&mut tags, crimestat_tag(risk, opts.crimestat));
            }
        },
        CrimestatState::Mixed => {},
    }
    if facts.has_non_blueprint_mixing() {
        push_tag(&mut tags, bracket("~"));
    }
    join_strings(&tags, " ")
}

} // verus!

verus! {

// ── Title pass ──────────────────────────────────────────────────────────────

impl TitleOptions {
    /// The title-tag switches of a mission enhancer config: every flag tag
    /// on by default, the crimestat tag colored.
    pub fn from_config(config: &PatcherConfig) -> (o: TitleOptions)
        requires
            config.options.wf(),
        ensures
            o.blueprint == option_bool(*config, "blueprint_tag"@, true),
            o.solo == option_bool(*config, "solo_tag"@, true),
            o.once == option_bool(*config, "once_tag"@, true),
            o.illegal == option_bool(*config, "illegal_tag"@, true),
            o.crimestat == (if option_str(*config, "crimestat_tag"@, "colored"@) == "off"@ {
                CrimestatTagMode::Off
            } else if option_str(*config, "crimestat_tag"@, "colored"@) == "simple"@ {
                CrimestatTagMode::Simple
            } else {
                CrimestatTagMode::Colored
            }),
    {
        TitleOptions {
            blueprint: config.get_bool("blueprint_tag", true),
            solo: config.get_bool("solo_tag", true),
            once: config.get_bool("once_tag", true),
            illegal: config.get_bool("illegal_tag", true),
            crimestat: CrimestatTagMode::from_str(config.get_str("crimestat_tag", "colored")),
        }
    }
}

/// A contract entry: its title key and what its title tags read.
pub struct TitleEntry {
    pub title_key: Option<String>,
    pub member: TitleMember,
}

/// The pool an entry's title belongs to: its key without the `@`, when
/// that is not empty.
pub open spec fn title_pool_key(k: Option<String>) -> Option<Seq<char>> {
    match k {
        Some(s) => if strip_at_spec(s@).len() > 0 {
            Some(strip_at_spec(s@))
        } else {
            None
        },
        None => None,
    }
}

/// The members of pool `k`, in entry order.
pub open spec fn pool_members(es: Seq<TitleEntry>, k: Seq<char>) -> Seq<TitleMember>
    decreases es.len(),
{
    if es.len() == 0 {
        Seq::empty()
    } else if title_pool_key(es.last().title_key) == Some(k) {
        pool_members(es.drop_last(), k).push(es.last().member)
    } else {
        pool_members(es.drop_last(), k)
    }
}

/// The tags of pool `k`, joined.
pub open spec fn pool_tags(es: Seq<TitleEntry>, k: Seq<char>, o: TitleOptions) -> Seq<char> {
    join_with(title_tag_list(title_facts_of(pool_members(es, k)), o), " "@)
}

/// Pool `k` gets a title suffix: it has members, its title resolves to
/// a non-empty text, and some tag applies.
pub open spec fn tags_pool(locale: LocaleMap, es: Seq<TitleEntry>, k: Seq<char>, o: TitleOptions) -> bool {
    &&& pool_members(es, k).len() > 0
    &&& resolved_text(locale, k) is Some
    &&& pool_tags(es, k, o).len() > 0
}

/// `patches` appends ` {tags}` to the title of each tagged pool, one op per
/// pool, in key order.
pub open spec fn title_patches_of(
    patches: Seq<(String, PatchOp)>,
    locale: LocaleMap,
    es: Seq<TitleEntry>,
    o: TitleOptions,
) -> bool {
    &&& forall|i: int, j: int| 0 <= i < j < patches.len() ==> lex_lt(patches[i].0@, patches[j].0@)
    &&& forall|i: int|
        0 <= i < patches.len() ==> {
            &&& tags_pool(locale, es, (#[trigger] patches[i]).0@, o)
            &&& patches[i].1 matches PatchOp::Suffix(s) && s@ == " "@ + pool_tags(es, patches[i].0@, o)
        }
    &&& forall|k: Seq<char>|
        tags_pool(locale, es, k, o) ==> exists|i: int| 0 <= i < patches.len() && (#[trigger] patches[i]).0@ == k
}

/// What the pools built so far hold: each pool's members, in entry order.
spec fn pools_hold(m: Seq<(Seq<char>, Vec<TitleMember>)>, es: Seq<TitleEntry>) -> bool {
    forall|k: Seq<char>|
        match #[trigger] lookup(m, k) {
            Some(v) => v@ == pool_members(es, k) && v@.len() > 0,
            None => pool_members(es, k).len() == 0,
        }
}

/// Group entries by title pool, in key order.
fn group_title_pools(entries: Vec<TitleEntry>) -> (pools: StrMap<Vec<TitleMember>>)
    ensures
        pools.wf(),
        pools_hold(pools@, entries@),
{
    let ghost es = entries@;
    let mut rest = entries;
    let mut pools: StrMap<Vec<TitleMember>> = StrMap::new();
    let ghost mut i: int = 0;
    while rest.len() > 0
        invariant
            pools.wf(),
            0 <= i <= es.len(),
            rest@ == es.skip(i),
            pools_hold(pools@, es.take(i)),
        decreases rest@.len(),
    {
        let e = rest.remove(0);
        let ghost before = pools@;
        let ghost done = es.take(i + 1);
        proof {
            assert(e == es[i]);
            assert(done.drop_last() =~= es.take(i));
            assert(done.last() == es[i]);
        }
        let TitleEntry { title_key, member } = e;
        let mut key: Option<String> = None;
        match title_key {
            Some(k) => {
                let s = strip_at(k.as_str());
                if !s.as_str().is_empty() {
                    key = Some(s);
                }
            },
            None => {},
        }
        match key {
            Some(s) => {
                pools.push_to(s.as_str(), member);
                proof {
                    assert(title_pool_key(es[i].title_key) == Some(s@));
                    assert forall|k: Seq<char>| match #[trigger] lookup(pools@, k) {
                        Some(v) => v@ == pool_members(done, k) && v@.len() > 0,
                        None => pool_members(done, k).len() == 0,
                    } by {
                        assert(lookup(before, k) == lookup(before, k));
                    }
                }
            },
            None => {
                proof {
                    assert(title_pool_key(es[i].title_key) is None);
                    assert forall|k: Seq<char>| match #[trigger] lookup(pools@, k) {
                        Some(v) => v@ == pool_members(done, k) && v@.len() > 0,
                        None => pool_members(done, k).len() == 0,
                    } by {
                        assert(lookup(before, k) == lookup(before, k));
                    }
                }
            },
        }
        proof {
            i = i + 1;
            assert(rest@ =~= es.skip(i));
        }
    }
    assert(es.take(i) =~= es);
    pools
}

} // verus!

verus! {

/// The title half of the mission enhancer: entries pooled by title key;
/// for each pool, in key order, whose title resolves to a non-empty text,
/// ` {tags}` appended when any tag applies.
#[verifier::rlimit(40)]
pub fn title_tag_patches(locale: &LocaleMap, entries: Vec<TitleEntry>, opts: TitleOptions) -> (r: Vec<(String, PatchOp)>)
    requires
        locale.entries.wf(),
    ensures
        title_patches_of(r@, *locale, entries@, opts),
{
    let ghost es = entries@;
    let pools = group_title_pools(entries);
    proof {
        pools.lemma_wf_sorted();
    }
    let mut patches: Vec<(String, PatchOp)> = Vec::new();
    let mut i: usize = 0;
    while i < pools.len()
        invariant
            pools.wf(),
            crate::strmap::entries_sorted(pools@),
            pools_hold(pools@, es),
            locale.entries.wf(),
            i <= pools@.len(),
            forall|a: int, b: int| 0 <= a < b < patches@.len() ==> lex_lt(patches@[a].0@, patches@[b].0@),
            forall|a: int| 0 <= a < patches@.len() ==> exists|j: int| 0 <= j < i && (#[trigger] pools@[j]).0 == (#[trigger] patches@[a]).0@,
            forall|a: int|
                0 <= a < patches@.len() ==> {
                    &&& tags_pool(*locale, es, (#[trigger] patches@[a]).0@, opts)
                    &&& patches@[a].1 matches PatchOp::Suffix(s) && s@ == " "@ + pool_tags(es, patches@[a].0@, opts)
                },
            forall|j: int|
                0 <= j < i && tags_pool(*locale, es, (#[trigger] pools@[j]).0, opts) ==> exists|a: int|
                    0 <= a < patches@.len() && (#[trigger] patches@[a]).0@ == pools@[j].0,
        decreases pools@.len() - i,
    {
        let key = pools.key_at(i);
        let members = pools.value_at(i);
        let ghost k = pools@[i as int].0;
        proof {
            lemma_lookup_at(pools@, i as int);
            assert(lookup(pools@, k) == Some(pools@[i as int].1));
            assert(members@ == pool_members(es, k));
        }
        let resolves = match locale.resolve(key) {
            Some(v) => !v.as_str().is_empty(),
            None => false,
        };
        let ghost before = patches@;
        if resolves {
            let facts = TitleFacts::build(members);
            let tags = render_title_tags(&facts, opts);
            if !tags.as_str().is_empty() {
                let mut suffix = String::new();
                suffix.append(" ");
                suffix.append(tags.as_str());
                patches.push((key.to_owned(), PatchOp::Suffix(suffix)));
                proof {
                    assert(tags_pool(*locale, es, k, opts));
                    assert forall|a: int| 0 <= a < before.len() implies lex_lt(before[a].0@, k) by {
                        let j = choose|j: int| 0 <= j < i && (#[trigger] pools@[j]).0 == (#[trigger] before[a]).0@;
                        assert(lex_lt(pools@[j].0, pools@[i as int].0));
                    }
                    assert(patches@[before.len() as int].0@ == k);
                    assert(pools@[i as int].0 == patches@[before.len() as int].0@);
                }
            }
        }
        proof {
            if !(resolves) {
                assert(!tags_pool(*locale, es, k, opts));
            }
            assert forall|j: int|
                0 <= j < i + 1 && tags_pool(*locale, es, (#[trigger] pools@[j]).0, opts) implies exists|a: int|
                    0 <= a < patches@.len() && (#[trigger] patches@[a]).0@ == pools@[j].0 by {
                if j < i {
                    let a = choose|a: int| 0 <= a < before.len() && (#[trigger] before[a]).0@ == pools@[j].0;
                    assert(patches@[a] == before[a]);
                } else {
                    assert(patches@.len() == before.len() + 1);
                    assert(patches@[before.len() as int].0@ == k);
                }
            }
        }
        i = i + 1;
    }
    proof {
        assert forall|k: Seq<char>| tags_pool(*locale, es, k, opts) implies exists|a: int|
            0 <= a < patches@.len() && (#[trigger] patches@[a]).0@ == k by {
            assert(lookup(pools@, k) is Some);
            let j = choose|j: int| 0 <= j < pools@.len() && pools@[j].0 == k;
            assert(tags_pool(*locale, es, pools@[j].0, opts));
        }
    }
    patches
}

} // verus!
