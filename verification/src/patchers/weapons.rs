//! Weapon enhancer — size/tracking prefixes on names, combat-stat blocks on
//! descriptions, pool-first so weapon families sharing one loc key
//! collapse to a single patch.
//!
//! Entries are pooled by stripped loc key; within a pool, members whose
//! size matches the key's `_S{n}` suffix are preferred. The combat-stat
//! blocks themselves are rendered per description key from the cooked
//! float statistics and reach the enhancer as text
//! ([`crate::cooked::WeaponsIndex`]).

use vstd::prelude::*;

use crate::catalog::{MissileEntry, ShipWeaponEntry};
use crate::cooked::{CookedData, WeaponsIndex, resolved_text, strip_at, strip_at_spec};
use crate::ops::{OpSet, OpView, OptionKind, PatchOp, PatcherConfig, PatcherOption, option_bool, patches_view, OpSetView, ops_view};
use crate::strmap::{StrMap, lookup, lookup_text};
use crate::text::{chars_of, dec_int, lex_lt, push_i64, str_eq};

verus! {

// ── Key shapes ──────────────────────────────────────────────────────────────

/// A loc key with its `@` stripped, when non-empty.
pub open spec fn stripped_spec(key: Option<String>) -> Option<Seq<char>> {
    match key {
        Some(k) => if strip_at_spec(k@).len() > 0 {
            Some(strip_at_spec(k@))
        } else {
            None
        },
        None => None,
    }
}

fn stripped(key: &Option<String>) -> (r: Option<String>)
    ensures
        match r {
            Some(s) => stripped_spec(*key) == Some(s@),
            None => stripped_spec(*key) is None,
        },
{
    match key {
        Some(k) => {
            let s = strip_at(k.as_str());
            if s.as_str().is_empty() {
                None
            } else {
                Some(s)
            }
        },
        None => None,
    }
}

/// An ASCII digit.
pub open spec fn is_digit(c: char) -> bool {
    '0' <= c <= '9'
}

/// The decimal value of a digit string.
pub open spec fn digits_val(d: Seq<char>) -> int
    decreases d.len(),
{
    if d.len() == 0 {
        0
    } else {
        digits_val(d.drop_last()) * 10 + (d.last() as int - 48)
    }
}

/// Length of the digit run starting at `i`.
pub open spec fn digit_run(s: Seq<char>, i: int) -> int
    decreases s.len() - i,
{
    if 0 <= i < s.len() && is_digit(s[i]) {
        1 + digit_run(s, i + 1)
    } else {
        0
    }
}

/// A size token starts at `i`: `_S` then digits, ended by `_` or the end
/// of the key, with a value that fits an `i32`.
pub open spec fn size_token_at(s: Seq<char>, i: int) -> bool {
    &&& 0 <= i
    &&& i + 2 < s.len()
    &&& s[i] == '_' && s[i + 1] == 'S' && is_digit(s[i + 2])
    &&& {
        let end = i + 2 + digit_run(s, i + 2);
        &&& (end == s.len() || s[end] == '_')
        &&& digits_val(s.subrange(i + 2, end)) <= i32::MAX
    }
}

/// The value of the size token at `i`.
pub open spec fn size_token_value(s: Seq<char>, i: int) -> int {
    digits_val(s.subrange(i + 2, i + 2 + digit_run(s, i + 2)))
}

/// The size hint of a loc key: its first size token (`_Stanton4_` is none).
pub open spec fn parse_size_spec(s: Seq<char>) -> Option<int> {
    if exists|i: int| size_token_at(s, i) {
        let i = choose|i: int| size_token_at(s, i) && forall|j: int| 0 <= j < i ==> !size_token_at(s, j);
        Some(size_token_value(s, i))
    } else {
        None
    }
}

proof fn lemma_first_token(s: Seq<char>, i: int)
    requires
        size_token_at(s, i),
        forall|j: int| 0 <= j < i ==> !size_token_at(s, j),
    ensures
        parse_size_spec(s) == Some(size_token_value(s, i)),
{
    let k = choose|k: int| size_token_at(s, k) && forall|j: int| 0 <= j < k ==> !size_token_at(s, j);
    assert(size_token_at(s, k) && forall|j: int| 0 <= j < k ==> !size_token_at(s, j));
    if k < i {
        assert(!size_token_at(s, k));
    } else if k > i {
        assert(!size_token_at(s, i));
    }
}

/// Scan the digit run starting at `start`: its end and value, when the
/// value fits an `i32`.
fn scan_digits(v: &Vec<char>, start: usize) -> (r: (usize, Option<i32>))
    requires
        start <= v@.len(),
    ensures
        r.0 == start + digit_run(v@, start as int),
        r.0 <= v@.len(),
        match r.1 {
            Some(n) => n == digits_val(v@.subrange(start as int, r.0 as int)),
            None => digits_val(v@.subrange(start as int, r.0 as int)) > i32::MAX,
        },
{
    let mut end = start;
    let mut value: i64 = 0;
    let mut overflow = false;
    proof {
        lemma_digit_run_split(v@, start as int, start as int);
    }
    while end < v.len() && '0' <= v[end] && v[end] <= '9'
        invariant
            start <= end <= v@.len(),
            digit_run(v@, start as int) == (end - start) + digit_run(v@, end as int),
            forall|j: int| start <= j < end ==> is_digit(v@[j]),
            !overflow ==> value == digits_val(v@.subrange(start as int, end as int)) && 0 <= value <= i32::MAX,
            overflow ==> digits_val(v@.subrange(start as int, end as int)) > i32::MAX,
        decreases v@.len() - end,
    {
        let d = char_digit(v[end]);
        assert(v@.subrange(start as int, end + 1).drop_last() =~= v@.subrange(start as int, end as int));
        proof {
            lemma_digits_nonneg(v@.subrange(start as int, end as int));
        }
        if !overflow {
            let next = value * 10 + d;
            if next > 2147483647 {
                overflow = true;
            } else {
                value = next;
            }
        }
        end = end + 1;
    }
    if overflow {
        (end, None)
    } else {
        (end, Some(value as i32))
    }
}

proof fn lemma_digits_nonneg(d: Seq<char>)
    requires
        forall|j: int| 0 <= j < d.len() ==> is_digit(#[trigger] d[j]),
    ensures
        digits_val(d) >= 0,
    decreases d.len(),
{
    if d.len() > 0 {
        assert forall|j: int| 0 <= j < d.drop_last().len() implies is_digit(#[trigger] d.drop_last()[j]) by {
            assert(d.drop_last()[j] == d[j]);
        }
        lemma_digits_nonneg(d.drop_last());
    }
}

proof fn lemma_digit_run_split(s: Seq<char>, a: int, b: int)
    requires
        a == b,
    ensures
        digit_run(s, a) == (b - a) + digit_run(s, b),
{
}

fn char_digit(c: char) -> (d: i64)
    requires
        '0' <= c <= '9',
    ensures
        d == c as int - 48,
{
    (c as u32 - 48) as i64
}

/// Extract a size hint from a loc-key suffix: the first `_S{digits}` token
/// bounded by `_` or end-of-string (`_Stanton4_` must not match).
pub fn parse_size_from_key(key: &str) -> (r: Option<i32>)
    ensures
        match r {
            Some(n) => parse_size_spec(key@) == Some(n as int),
            None => parse_size_spec(key@) is None,
        },
{
    let v = chars_of(key);
    let n = v.len();
    let mut i: usize = 0;
    while n > 2 && i < n - 2
        invariant
            n == v@.len(),
            v@ == key@,
            forall|j: int| 0 <= j < i ==> !size_token_at(v@, j),
        decreases n - i,
    {
        if v[i] == '_' && v[i + 1] == 'S' && '0' <= v[i + 2] && v[i + 2] <= '9' {
            let (end, val) = scan_digits(&v, i + 2);
            if end == n || v[end] == '_' {
                match val {
                    Some(x) => {
                        proof {
                            assert(size_token_at(v@, i as int));
                            lemma_first_token(v@, i as int);
                        }
                        return Some(x);
                    },
                    None => {},
                }
            }
        }
        i = i + 1;
    }
    proof {
        assert forall|j: int| !size_token_at(v@, j) by {
            if j >= i {
                assert(!(j + 2 < v@.len()));
            }
        }
    }
    None
}

/// The tracking tag of a seeker signal.
pub open spec fn tracking_tag_spec(signal: Seq<char>) -> Option<Seq<char>> {
    if signal == "Infrared"@ {
        Some("IR"@)
    } else if signal == "Electromagnetic"@ {
        Some("EM"@)
    } else if signal == "CrossSection"@ {
        Some("CS"@)
    } else {
        None
    }
}

/// The tag shown for a seeker signal.
pub fn tracking_tag(signal: &str) -> (r: Option<&'static str>)
    ensures
        match r {
            Some(t) => tracking_tag_spec(signal@) == Some(t@),
            None => tracking_tag_spec(signal@) is None,
        },
{
    if str_eq(signal, "Infrared") {
        Some("IR")
    } else if str_eq(signal, "Electromagnetic") {
        Some("EM")
    } else if str_eq(signal, "CrossSection") {
        Some("CS")
    } else {
        None
    }
}

// ── Pools ───────────────────────────────────────────────────────────────────

/// A pool member: an index into the ship weapons or into the missiles.
#[derive(Debug, Clone, Copy, PartialEq, Eq, Structural)]
pub enum PoolMember {
    Ship(usize),
    Missile(usize),
}

/// The key a ship weapon pools under (name or description key).
pub open spec fn ship_key(s: ShipWeaponEntry, by_name: bool) -> Option<Seq<char>> {
    if by_name {
        stripped_spec(s.name_key)
    } else {
        stripped_spec(s.desc_key)
    }
}

/// The key a missile pools under (name or description key).
pub open spec fn missile_key(m: MissileEntry, by_name: bool) -> Option<Seq<char>> {
    if by_name {
        stripped_spec(m.name_key)
    } else {
        stripped_spec(m.desc_key)
    }
}

/// The ship weapons pooled under `k`, in order.
pub open spec fn ship_members(ships: Seq<ShipWeaponEntry>, by_name: bool, k: Seq<char>) -> Seq<PoolMember>
    decreases ships.len(),
{
    if ships.len() == 0 {
        Seq::empty()
    } else {
        let prev = ship_members(ships.drop_last(), by_name, k);
        if ship_key(ships.last(), by_name) == Some(k) {
            prev.push(PoolMember::Ship((ships.len() - 1) as usize))
        } else {
            prev
        }
    }
}

/// The missiles pooled under `k`, in order.
pub open spec fn missile_members(missiles: Seq<MissileEntry>, by_name: bool, k: Seq<char>) -> Seq<PoolMember>
    decreases missiles.len(),
{
    if missiles.len() == 0 {
        Seq::empty()
    } else {
        let prev = missile_members(missiles.drop_last(), by_name, k);
        if missile_key(missiles.last(), by_name) == Some(k) {
            prev.push(PoolMember::Missile((missiles.len() - 1) as usize))
        } else {
            prev
        }
    }
}

/// Everything pooled under `k`: ship weapons first, then missiles.
pub open spec fn pool_of(w: WeaponsIndex, by_name: bool, k: Seq<char>) -> Seq<PoolMember> {
    ship_members(w.ship_weapons@, by_name, k) + missile_members(w.missiles@, by_name, k)
}

/// The sizes of the ship-weapon members of a pool.
pub open spec fn ship_sizes(w: WeaponsIndex, members: Seq<PoolMember>) -> Seq<i32>
    decreases members.len(),
{
    if members.len() == 0 {
        Seq::empty()
    } else {
        let prev = ship_sizes(w, members.drop_last());
        match members.last() {
            PoolMember::Ship(i) => prev.push(w.ship_weapons@[i as int].size),
            PoolMember::Missile(_) => prev,
        }
    }
}

/// `(size, tracking tag)` of the missile members of a pool.
pub open spec fn missile_facts(w: WeaponsIndex, members: Seq<PoolMember>) -> Seq<(i32, Option<Seq<char>>)>
    decreases members.len(),
{
    if members.len() == 0 {
        Seq::empty()
    } else {
        let prev = missile_facts(w, members.drop_last());
        match members.last() {
            PoolMember::Ship(_) => prev,
            PoolMember::Missile(i) => {
                let m = w.missiles@[i as int];
                prev.push(
                    (
                        m.size,
                        match m.tracking_signal {
                            Some(sig) => tracking_tag_spec(sig@),
                            None => None,
                        },
                    ),
                )
            },
        }
    }
}

/// The sizes equal to `t`, in order.
pub open spec fn sizes_equal(s: Seq<i32>, t: int) -> Seq<i32>
    decreases s.len(),
{
    if s.len() == 0 {
        Seq::empty()
    } else {
        let p = sizes_equal(s.drop_last(), t);
        if s.last() as int == t {
            p.push(s.last())
        } else {
            p
        }
    }
}

/// The missiles whose size is `t`, in order.
pub open spec fn facts_sized(s: Seq<(i32, Option<Seq<char>>)>, t: int) -> Seq<(i32, Option<Seq<char>>)>
    decreases s.len(),
{
    if s.len() == 0 {
        Seq::empty()
    } else {
        let p = facts_sized(s.drop_last(), t);
        if s.last().0 as int == t {
            p.push(s.last())
        } else {
            p
        }
    }
}

/// Keep the sizes matching the key's size hint; all of them when none
/// matches or the key carries no hint.
pub open spec fn matched_sizes(sizes: Seq<i32>, target: Option<int>) -> Seq<i32> {
    match target {
        Some(t) => if sizes_equal(sizes, t).len() == 0 {
            sizes
        } else {
            sizes_equal(sizes, t)
        },
        None => sizes,
    }
}

/// Keep the missiles matching the key's size hint; all of them when none
/// matches or the key carries no hint.
pub open spec fn matched_facts(facts: Seq<(i32, Option<Seq<char>>)>, target: Option<int>) -> Seq<
    (i32, Option<Seq<char>>),
> {
    match target {
        Some(t) => if facts_sized(facts, t).len() == 0 {
            facts
        } else {
            facts_sized(facts, t)
        },
        None => facts,
    }
}

/// Least of a non-empty sequence.
pub open spec fn seq_min(s: Seq<i32>) -> i32
    decreases s.len(),
{
    if s.len() <= 1 {
        s[0]
    } else {
        let m = seq_min(s.drop_last());
        if s.last() < m {
            s.last()
        } else {
            m
        }
    }
}

/// Greatest of a non-empty sequence.
pub open spec fn seq_max(s: Seq<i32>) -> i32
    decreases s.len(),
{
    if s.len() <= 1 {
        s[0]
    } else {
        let m = seq_max(s.drop_last());
        if s.last() > m {
            s.last()
        } else {
            m
        }
    }
}

/// `S{n}` for one size, `S{lo}-S{hi}` for a range.
pub open spec fn size_range_text(sizes: Seq<i32>) -> Seq<char> {
    let lo = seq_min(sizes);
    let hi = seq_max(sizes);
    if lo == hi {
        "S"@ + dec_int(lo as int)
    } else {
        "S"@ + dec_int(lo as int) + "-S"@ + dec_int(hi as int)
    }
}

/// The positive sizes, in order.
pub open spec fn positive(s: Seq<i32>) -> Seq<i32>
    decreases s.len(),
{
    if s.len() == 0 {
        Seq::empty()
    } else {
        let p = positive(s.drop_last());
        if s.last() > 0 {
            p.push(s.last())
        } else {
            p
        }
    }
}

/// A ship-weapon name prefix: the positive size range and a space, when
/// sizes are shown and any is positive.
pub open spec fn ship_prefix_spec(sizes: Seq<i32>, with_size: bool) -> Seq<char> {
    if with_size && positive(sizes).len() > 0 {
        size_range_text(positive(sizes)) + " "@
    } else {
        Seq::empty()
    }
}

/// The one tracking tag all tagged missiles agree on, if any missile is
/// tagged and no two tags differ.
pub open spec fn single_tag(facts: Seq<(i32, Option<Seq<char>>)>) -> Option<Seq<char>> {
    if exists|i: int| 0 <= i < facts.len() && facts[i].1 is Some {
        let i = choose|i: int| 0 <= i < facts.len() && facts[i].1 is Some;
        let t = facts[i].1->0;
        if forall|j: int| 0 <= j < facts.len() && facts[j].1 is Some ==> facts[j].1 == Some(t) {
            Some(t)
        } else {
            None
        }
    } else {
        None
    }
}

/// A missile name prefix: the positive size range (when shown) and the
/// agreed tracking tag in brackets (when shown), space-separated, plus a
/// trailing space; empty when neither applies.
pub open spec fn missile_prefix_spec(facts: Seq<(i32, Option<Seq<char>>)>, with_size: bool, with_tracking: bool) -> Seq<char> {
    let sizes = positive(facts.map_values(|f: (i32, Option<Seq<char>>)| f.0));
    let size_part: Option<Seq<char>> = if with_size && sizes.len() > 0 {
        Some(size_range_text(sizes))
    } else {
        None
    };
    let tag_part: Option<Seq<char>> = if with_tracking {
        match single_tag(facts) {
            Some(t) => Some("["@ + t + "]"@),
            None => None,
        }
    } else {
        None
    };
    match (size_part, tag_part) {
        (Some(a), Some(b)) => a + " "@ + b + " "@,
        (Some(a), None) => a + " "@,
        (None, Some(b)) => b + " "@,
        (None, None) => Seq::empty(),
    }
}

/// The weapon enhancer's option values.
pub struct WeaponOptions {
    pub size_prefix: bool,
    pub missile_type_prefix: bool,
    pub weapon_stats: bool,
    pub missile_stats: bool,
}

/// The name prefix for pool key `k`, if it gets one: the key has
/// non-empty text, and its matched ship weapons (else missiles) give a
/// non-empty prefix.
pub open spec fn name_patch_for(cooked: CookedData, opts: WeaponOptions, k: Seq<char>) -> Option<Seq<char>> {
    let members = pool_of(cooked.weapons, true, k);
    let target = parse_size_spec(k);
    let ships = matched_sizes(ship_sizes(cooked.weapons, members), target);
    let missiles = matched_facts(missile_facts(cooked.weapons, members), target);
    if members.len() == 0 || resolved_text(cooked.locale, k) is None {
        None
    } else {
        let prefix = if ships.len() > 0 {
            ship_prefix_spec(ships, opts.size_prefix)
        } else if missiles.len() > 0 {
            missile_prefix_spec(missiles, opts.size_prefix, opts.missile_type_prefix)
        } else {
            Seq::empty()
        };
        if prefix.len() > 0 {
            Some(prefix)
        } else {
            None
        }
    }
}

/// The description suffix for pool key `k`, if it gets one: the key has
/// non-empty text, is no name key, and the stat block for its matched
/// ship weapons (else missiles) is enabled and non-empty.
pub open spec fn desc_patch_for(cooked: CookedData, opts: WeaponOptions, k: Seq<char>) -> Option<Seq<char>> {
    let members = pool_of(cooked.weapons, false, k);
    let target = parse_size_spec(k);
    let ships = matched_sizes(ship_sizes(cooked.weapons, members), target);
    let missiles = matched_facts(missile_facts(cooked.weapons, members), target);
    if members.len() == 0 || resolved_text(cooked.locale, k) is None || pool_of(cooked.weapons, true, k).len() > 0 {
        None
    } else {
        let suffix = if ships.len() > 0 && opts.weapon_stats {
            match lookup_text(cooked.weapons.ship_stat_blocks@, k) {
                Some(b) => b,
                None => Seq::empty(),
            }
        } else if missiles.len() > 0 && opts.missile_stats {
            match lookup_text(cooked.weapons.missile_stat_blocks@, k) {
                Some(b) => b,
                None => Seq::empty(),
            }
        } else {
            Seq::empty()
        };
        if suffix.len() > 0 {
            Some(suffix)
        } else {
            None
        }
    }
}

/// `patches` holds, in strictly increasing key order, exactly the keys `f`
/// gives an op for, each with that op.
pub open spec fn keyed_patches(patches: Seq<(Seq<char>, OpView)>, f: spec_fn(Seq<char>) -> Option<OpView>) -> bool {
    &&& forall|i: int, j: int| 0 <= i < j < patches.len() ==> lex_lt(patches[i].0, patches[j].0)
    &&& forall|i: int| 0 <= i < patches.len() ==> f(#[trigger] patches[i].0) == Some(patches[i].1)
    &&& forall|k: Seq<char>| (#[trigger] f(k)) is Some ==> exists|i: int| 0 <= i < patches.len() && patches[i].0 == k
}


// ── Exec: pools ─────────────────────────────────────────────────────────────

/// Every member names an existing entry.
pub open spec fn members_valid(w: WeaponsIndex, members: Seq<PoolMember>) -> bool {
    forall|j: int|
        0 <= j < members.len() ==> match #[trigger] members[j] {
            PoolMember::Ship(i) => i < w.ship_weapons@.len(),
            PoolMember::Missile(i) => i < w.missiles@.len(),
        }
}

/// The members stored under `k`, empty when `k` is absent.
pub open spec fn stored_members(e: Seq<(Seq<char>, Vec<PoolMember>)>, k: Seq<char>) -> Seq<PoolMember> {
    match lookup(e, k) {
        Some(v) => v@,
        None => Seq::empty(),
    }
}

proof fn lemma_ship_members_valid(ships: Seq<ShipWeaponEntry>, by_name: bool, k: Seq<char>)
    ensures
        forall|j: int|
            0 <= j < ship_members(ships, by_name, k).len() ==> ((#[trigger] ship_members(ships, by_name, k)[j]) matches PoolMember::Ship(i) && i < ships.len()),
    decreases ships.len(),
{
    if ships.len() > 0 {
        lemma_ship_members_valid(ships.drop_last(), by_name, k);
    }
}

proof fn lemma_missile_members_valid(ms: Seq<MissileEntry>, by_name: bool, k: Seq<char>)
    ensures
        forall|j: int|
            0 <= j < missile_members(ms, by_name, k).len() ==> ((#[trigger] missile_members(ms, by_name, k)[j]) matches PoolMember::Missile(i) && i < ms.len()),
    decreases ms.len(),
{
    if ms.len() > 0 {
        lemma_missile_members_valid(ms.drop_last(), by_name, k);
    }
}

/// Every pool's members are valid.
proof fn lemma_pool_valid(w: WeaponsIndex, by_name: bool, k: Seq<char>)
    ensures
        members_valid(w, pool_of(w, by_name, k)),
{
    lemma_ship_members_valid(w.ship_weapons@, by_name, k);
    lemma_missile_members_valid(w.missiles@, by_name, k);
    let a = ship_members(w.ship_weapons@, by_name, k);
    let b = missile_members(w.missiles@, by_name, k);
    assert forall|j: int| 0 <= j < (a + b).len() implies match #[trigger] (a + b)[j] {
        PoolMember::Ship(i) => i < w.ship_weapons@.len(),
        PoolMember::Missile(i) => i < w.missiles@.len(),
    } by {
        if j < a.len() {
            assert((a + b)[j] == a[j]);
        } else {
            assert((a + b)[j] == b[j - a.len()]);
        }
    }
}

/// Pool the weapons by stripped name (or description) key.
fn build_pools(w: &WeaponsIndex, by_name: bool) -> (pools: StrMap<Vec<PoolMember>>)
    ensures
        pools.wf(),
        forall|k: Seq<char>| #[trigger] stored_members(pools@, k) == pool_of(*w, by_name, k),
        forall|k: Seq<char>| (#[trigger] lookup(pools@, k)) is Some ==> pool_of(*w, by_name, k).len() > 0,
{
    let mut pools: StrMap<Vec<PoolMember>> = StrMap::new();
    let mut i: usize = 0;
    while i < w.ship_weapons.len()
        invariant
            pools.wf(),
            i <= w.ship_weapons@.len(),
            forall|k: Seq<char>| #[trigger] stored_members(pools@, k) == ship_members(w.ship_weapons@.take(i as int), by_name, k),
            forall|k: Seq<char>| (#[trigger] lookup(pools@, k)) is Some ==> ship_members(w.ship_weapons@.take(i as int), by_name, k).len() > 0,
        decreases w.ship_weapons@.len() - i,
    {
        let e = &w.ship_weapons[i];
        assert(w.ship_weapons@.take(i + 1).drop_last() =~= w.ship_weapons@.take(i as int));
        assert(w.ship_weapons@.take(i + 1).last() == w.ship_weapons@[i as int]);
        let key = if by_name { stripped(&e.name_key) } else { stripped(&e.desc_key) };
        let ghost before = pools@;
        match key {
            Some(k) => {
                pools.push_to(k.as_str(), PoolMember::Ship(i));
                assert forall|k2: Seq<char>| #[trigger] stored_members(pools@, k2) == ship_members(w.ship_weapons@.take(i + 1), by_name, k2)
                    && (lookup(pools@, k2) is Some ==> ship_members(w.ship_weapons@.take(i + 1), by_name, k2).len() > 0) by {
                    if k2 != k@ {
                        assert(lookup(pools@, k2) == lookup(before, k2));
                        assert(stored_members(before, k2) == stored_members(pools@, k2));
                    } else {
                        assert(stored_members(pools@, k2) =~= stored_members(before, k2).push(PoolMember::Ship(i)));
                    }
                }
            },
            None => {
                assert forall|k2: Seq<char>| #[trigger] stored_members(pools@, k2) == ship_members(w.ship_weapons@.take(i + 1), by_name, k2)
                    && (lookup(pools@, k2) is Some ==> ship_members(w.ship_weapons@.take(i + 1), by_name, k2).len() > 0) by {
                    assert(ship_members(w.ship_weapons@.take(i + 1), by_name, k2) == ship_members(w.ship_weapons@.take(i as int), by_name, k2));
                }
            },
        }
        i = i + 1;
    }
    assert(w.ship_weapons@.take(w.ship_weapons@.len() as int) =~= w.ship_weapons@);
    let mut j: usize = 0;
    while j < w.missiles.len()
        invariant
            pools.wf(),
            j <= w.missiles@.len(),
            forall|k: Seq<char>| #[trigger] stored_members(pools@, k) == ship_members(w.ship_weapons@, by_name, k) + missile_members(w.missiles@.take(j as int), by_name, k),
            forall|k: Seq<char>| (#[trigger] lookup(pools@, k)) is Some ==> (ship_members(w.ship_weapons@, by_name, k) + missile_members(w.missiles@.take(j as int), by_name, k)).len() > 0,
        decreases w.missiles@.len() - j,
    {
        let e = &w.missiles[j];
        assert(w.missiles@.take(j + 1).drop_last() =~= w.missiles@.take(j as int));
        assert(w.missiles@.take(j + 1).last() == w.missiles@[j as int]);
        let key = if by_name { stripped(&e.name_key) } else { stripped(&e.desc_key) };
        let ghost before = pools@;
        match key {
            Some(k) => {
                pools.push_to(k.as_str(), PoolMember::Missile(j));
                assert forall|k2: Seq<char>| #[trigger] stored_members(pools@, k2) == ship_members(w.ship_weapons@, by_name, k2) + missile_members(w.missiles@.take(j + 1), by_name, k2)
                    && (lookup(pools@, k2) is Some ==> (ship_members(w.ship_weapons@, by_name, k2) + missile_members(w.missiles@.take(j + 1), by_name, k2)).len() > 0) by {
                    if k2 != k@ {
                        assert(lookup(pools@, k2) == lookup(before, k2));
                        assert(stored_members(before, k2) == stored_members(pools@, k2));
                    } else {
                        assert(stored_members(pools@, k2) =~= stored_members(before, k2).push(PoolMember::Missile(j)));
                        assert(ship_members(w.ship_weapons@, by_name, k2) + missile_members(w.missiles@.take(j + 1), by_name, k2)
                            =~= (ship_members(w.ship_weapons@, by_name, k2) + missile_members(w.missiles@.take(j as int), by_name, k2)).push(PoolMember::Missile(j)));
                    }
                }
            },
            None => {
                assert forall|k2: Seq<char>| #[trigger] stored_members(pools@, k2) == ship_members(w.ship_weapons@, by_name, k2) + missile_members(w.missiles@.take(j + 1), by_name, k2)
                    && (lookup(pools@, k2) is Some ==> (ship_members(w.ship_weapons@, by_name, k2) + missile_members(w.missiles@.take(j + 1), by_name, k2)).len() > 0) by {
                    assert(missile_members(w.missiles@.take(j + 1), by_name, k2) == missile_members(w.missiles@.take(j as int), by_name, k2));
                }
            },
        }
        j = j + 1;
    }
    assert(w.missiles@.take(w.missiles@.len() as int) =~= w.missiles@);
    pools
}

// ── Exec: pool facts ────────────────────────────────────────────────────────

/// Sizes of the ship-weapon members.
fn sizes_of(w: &WeaponsIndex, members: &Vec<PoolMember>) -> (r: Vec<i32>)
    requires
        members_valid(*w, members@),
    ensures
        r@ == ship_sizes(*w, members@),
{
    let mut out: Vec<i32> = Vec::new();
    let mut i: usize = 0;
    while i < members.len()
        invariant
            members_valid(*w, members@),
            i <= members@.len(),
            out@ == ship_sizes(*w, members@.take(i as int)),
        decreases members@.len() - i,
    {
        assert(members@.take(i + 1).drop_last() =~= members@.take(i as int));
        assert(members@.take(i + 1).last() == members@[i as int]);
        match members[i] {
            PoolMember::Ship(k) => {
                out.push(w.ship_weapons[k].size);
            },
            PoolMember::Missile(_) => {},
        }
        i = i + 1;
    }
    assert(members@.take(members@.len() as int) =~= members@);
    out
}

/// An optional tag's text.
pub open spec fn opt_tag(t: Option<&'static str>) -> Option<Seq<char>> {
    match t {
        Some(x) => Some(x@),
        None => None,
    }
}

/// `(size, tag)` of the missile members.
fn facts_of(w: &WeaponsIndex, members: &Vec<PoolMember>) -> (r: Vec<(i32, Option<&'static str>)>)
    requires
        members_valid(*w, members@),
    ensures
        r@.map_values(|f: (i32, Option<&'static str>)| (f.0, opt_tag(f.1))) == missile_facts(*w, members@),
{
    let mut out: Vec<(i32, Option<&'static str>)> = Vec::new();
    let mut i: usize = 0;
    while i < members.len()
        invariant
            members_valid(*w, members@),
            i <= members@.len(),
            out@.map_values(|f: (i32, Option<&'static str>)| (f.0, opt_tag(f.1))) == missile_facts(*w, members@.take(i as int)),
        decreases members@.len() - i,
    {
        assert(members@.take(i + 1).drop_last() =~= members@.take(i as int));
        assert(members@.take(i + 1).last() == members@[i as int]);
        let ghost before = out@.map_values(|f: (i32, Option<&'static str>)| (f.0, opt_tag(f.1)));
        match members[i] {
            PoolMember::Ship(_) => {},
            PoolMember::Missile(k) => {
                let m = &w.missiles[k];
                let tag = match &m.tracking_signal {
                    Some(sig) => tracking_tag(sig.as_str()),
                    None => None,
                };
                out.push((m.size, tag));
                assert(out@.map_values(|f: (i32, Option<&'static str>)| (f.0, opt_tag(f.1))) =~= before.push(
                    (m.size, opt_tag(tag)),
                ));
            },
        }
        i = i + 1;
    }
    assert(members@.take(members@.len() as int) =~= members@);
    out
}

fn keep_sizes(s: &Vec<i32>, t: i32) -> (r: Vec<i32>)
    ensures
        r@ == sizes_equal(s@, t as int),
{
    let mut out: Vec<i32> = Vec::new();
    let mut i: usize = 0;
    while i < s.len()
        invariant
            i <= s@.len(),
            out@ == sizes_equal(s@.take(i as int), t as int),
        decreases s@.len() - i,
    {
        assert(s@.take(i + 1).drop_last() =~= s@.take(i as int));
        if s[i] == t {
            out.push(s[i]);
        }
        i = i + 1;
    }
    assert(s@.take(s@.len() as int) =~= s@);
    out
}

fn matched_sizes_exec(s: Vec<i32>, target: Option<i32>) -> (r: Vec<i32>)
    ensures
        r@ == matched_sizes(s@, match target {
            Some(t) => Some(t as int),
            None => None,
        }),
{
    match target {
        Some(t) => {
            let m = keep_sizes(&s, t);
            if m.len() == 0 {
                s
            } else {
                m
            }
        },
        None => s,
    }
}

fn matched_facts_exec(s: Vec<(i32, Option<&'static str>)>, target: Option<i32>) -> (r: Vec<(i32, Option<&'static str>)>)
    ensures
        r@.map_values(|f: (i32, Option<&'static str>)| (f.0, opt_tag(f.1))) == matched_facts(
            s@.map_values(|f: (i32, Option<&'static str>)| (f.0, opt_tag(f.1))),
            match target {
                Some(t) => Some(t as int),
                None => None,
            },
        ),
{
    let ghost sv = s@.map_values(|f: (i32, Option<&'static str>)| (f.0, opt_tag(f.1)));
    match target {
        Some(t) => {
            let mut out: Vec<(i32, Option<&'static str>)> = Vec::new();
            let mut i: usize = 0;
            while i < s.len()
                invariant
                    i <= s@.len(),
                    sv == s@.map_values(|f: (i32, Option<&'static str>)| (f.0, opt_tag(f.1))),
                    out@.map_values(|f: (i32, Option<&'static str>)| (f.0, opt_tag(f.1))) == facts_sized(sv.take(i as int), t as int),
                decreases s@.len() - i,
            {
                assert(sv.take(i + 1).drop_last() =~= sv.take(i as int));
                assert(sv.take(i + 1).last() == sv[i as int]);
                let ghost before = out@.map_values(|f: (i32, Option<&'static str>)| (f.0, opt_tag(f.1)));
                if s[i].0 == t {
                    out.push(s[i]);
                    assert(out@.map_values(|f: (i32, Option<&'static str>)| (f.0, opt_tag(f.1))) =~= before.push(sv[i as int]));
                }
                i = i + 1;
            }
            assert(sv.take(sv.len() as int) =~= sv);
            if out.len() == 0 {
                s
            } else {
                out
            }
        },
        None => s,
    }
}

fn positive_sizes(s: &Vec<i32>) -> (r: Vec<i32>)
    ensures
        r@ == positive(s@),
{
    let mut out: Vec<i32> = Vec::new();
    let mut i: usize = 0;
    while i < s.len()
        invariant
            i <= s@.len(),
            out@ == positive(s@.take(i as int)),
        decreases s@.len() - i,
    {
        assert(s@.take(i + 1).drop_last() =~= s@.take(i as int));
        if s[i] > 0 {
            out.push(s[i]);
        }
        i = i + 1;
    }
    assert(s@.take(s@.len() as int) =~= s@);
    out
}

proof fn lemma_seq_min_max(s: Seq<i32>)
    requires
        s.len() > 0,
    ensures
        s.contains(seq_min(s)),
        s.contains(seq_max(s)),
        forall|i: int| 0 <= i < s.len() ==> seq_min(s) <= #[trigger] s[i] <= seq_max(s),
    decreases s.len(),
{
    if s.len() > 1 {
        let t = s.drop_last();
        lemma_seq_min_max(t);
        assert forall|i: int| 0 <= i < s.len() implies seq_min(s) <= #[trigger] s[i] <= seq_max(s) by {
            if i < t.len() {
                assert(s[i] == t[i]);
            }
        }
        let a = choose|k: int| 0 <= k < t.len() && t[k] == seq_min(t);
        let b = choose|k: int| 0 <= k < t.len() && t[k] == seq_max(t);
        assert(s[a] == t[a] && s[b] == t[b]);
        assert(s[s.len() - 1] == s.last());
    } else {
        assert(s[0] == seq_min(s));
    }
}

proof fn lemma_positive_members(s: Seq<i32>)
    ensures
        forall|x: i32| #[trigger] positive(s).contains(x) <==> s.contains(x) && x > 0,
    decreases s.len(),
{
    if s.len() > 0 {
        let t = s.drop_last();
        lemma_positive_members(t);
        let pt = positive(t);
        let ps = positive(s);
        assert(ps == if s.last() > 0 { pt.push(s.last()) } else { pt });
        assert forall|x: i32| #[trigger] ps.contains(x) <==> s.contains(x) && x > 0 by {
            if s.contains(x) && x > 0 {
                let k = choose|k: int| 0 <= k < s.len() && s[k] == x;
                if k < t.len() {
                    assert(t[k] == x);
                    assert(t.contains(x));
                    assert(pt.contains(x));
                    let q = choose|q: int| 0 <= q < pt.len() && pt[q] == x;
                    assert(ps[q] == x);
                } else {
                    assert(ps[ps.len() - 1] == x);
                }
            }
            if ps.contains(x) {
                let q = choose|q: int| 0 <= q < ps.len() && ps[q] == x;
                if s.last() > 0 && q == ps.len() - 1 {
                    assert(s[s.len() - 1] == x);
                } else {
                    assert(pt[q] == x);
                    assert(pt.contains(x));
                    let k = choose|k: int| 0 <= k < t.len() && t[k] == x;
                    assert(s[k] == x);
                }
            }
        }
    }
}

/// The size text names the smallest and the largest size: `S{lo}` when
/// all sizes are `lo`, else `S{lo}-S{hi}` — the largest size always
/// appears.
pub proof fn lemma_size_text_names_range(sizes: Seq<i32>, lo: i32, hi: i32)
    requires
        sizes.contains(lo),
        sizes.contains(hi),
        forall|i: int| 0 <= i < sizes.len() ==> lo <= #[trigger] sizes[i] <= hi,
    ensures
        size_range_text(sizes) == if lo == hi {
            "S"@ + dec_int(lo as int)
        } else {
            "S"@ + dec_int(lo as int) + "-S"@ + dec_int(hi as int)
        },
{
    lemma_seq_min_max(sizes);
    let a = choose|k: int| 0 <= k < sizes.len() && sizes[k] == lo;
    let b = choose|k: int| 0 <= k < sizes.len() && sizes[k] == hi;
    let m = choose|k: int| 0 <= k < sizes.len() && sizes[k] == seq_min(sizes);
    let n = choose|k: int| 0 <= k < sizes.len() && sizes[k] == seq_max(sizes);
    assert(sizes[a] == lo && sizes[b] == hi && sizes[m] == seq_min(sizes) && sizes[n] == seq_max(sizes));
}

/// A ship weapon's name prefix, with sizes shown and some size positive,
/// names the smallest and the largest positive size of its pool, then a
/// space.
pub proof fn lemma_ship_prefix_names_range(sizes: Seq<i32>, lo: i32, hi: i32)
    requires
        sizes.contains(lo),
        sizes.contains(hi),
        0 < lo,
        forall|i: int| 0 <= i < sizes.len() && sizes[i] > 0 ==> lo <= #[trigger] sizes[i] <= hi,
    ensures
        ship_prefix_spec(sizes, true) == if lo == hi {
            "S"@ + dec_int(lo as int) + " "@
        } else {
            "S"@ + dec_int(lo as int) + "-S"@ + dec_int(hi as int) + " "@
        },
{
    lemma_positive_members(sizes);
    let p = positive(sizes);
    assert(p.contains(lo) && p.contains(hi));
    assert forall|i: int| 0 <= i < p.len() implies lo <= #[trigger] p[i] <= hi by {
        assert(p.contains(p[i]));
        let k = choose|k: int| 0 <= k < sizes.len() && sizes[k] == p[i];
        assert(sizes[k] > 0);
    }
    lemma_size_text_names_range(p, lo, hi);
}

/// A missile's name prefix, with sizes and tracking shown, some size
/// positive and one agreed tracking tag `t`: the size range of its pool
/// (smallest to largest positive size), a space, `[t]`, a space.
pub proof fn lemma_missile_prefix_order(
    facts: Seq<(i32, Option<Seq<char>>)>,
    lo: i32,
    hi: i32,
    t: Seq<char>,
)
    requires
        exists|i: int| 0 <= i < facts.len() && (#[trigger] facts[i]).0 == lo,
        exists|i: int| 0 <= i < facts.len() && (#[trigger] facts[i]).0 == hi,
        0 < lo,
        forall|i: int| 0 <= i < facts.len() && (#[trigger] facts[i]).0 > 0 ==> lo <= facts[i].0 <= hi,
        single_tag(facts) == Some(t),
    ensures
        missile_prefix_spec(facts, true, true) == if lo == hi {
            "S"@ + dec_int(lo as int) + " "@ + "["@ + t + "]"@ + " "@
        } else {
            "S"@ + dec_int(lo as int) + "-S"@ + dec_int(hi as int) + " "@ + "["@ + t + "]"@ + " "@
        },
{
    let sz = facts.map_values(|f: (i32, Option<Seq<char>>)| f.0);
    let a = choose|i: int| 0 <= i < facts.len() && (#[trigger] facts[i]).0 == lo;
    let b = choose|i: int| 0 <= i < facts.len() && (#[trigger] facts[i]).0 == hi;
    assert(sz[a] == lo && sz[b] == hi);
    assert forall|i: int| 0 <= i < sz.len() && sz[i] > 0 implies lo <= #[trigger] sz[i] <= hi by {
        assert(sz[i] == facts[i].0);
    }
    lemma_positive_members(sz);
    let p = positive(sz);
    assert(p.contains(lo) && p.contains(hi));
    assert forall|i: int| 0 <= i < p.len() implies lo <= #[trigger] p[i] <= hi by {
        assert(p.contains(p[i]));
        let k = choose|k: int| 0 <= k < sz.len() && sz[k] == p[i];
    }
    lemma_size_text_names_range(p, lo, hi);
}

/// `S{n}` / `S{lo}-S{hi}` of a non-empty size list.
fn size_range(sizes: &Vec<i32>) -> (r: String)
    requires
        sizes@.len() > 0,
    ensures
        r@ == size_range_text(sizes@),
{
    let mut lo = sizes[0];
    let mut hi = sizes[0];
    let mut i: usize = 1;
    assert(sizes@.take(1) =~= seq![sizes@[0]]);
    while i < sizes.len()
        invariant
            1 <= i <= sizes@.len(),
            lo == seq_min(sizes@.take(i as int)),
            hi == seq_max(sizes@.take(i as int)),
        decreases sizes@.len() - i,
    {
        assert(sizes@.take(i + 1).drop_last() =~= sizes@.take(i as int));
        if sizes[i] < lo {
            lo = sizes[i];
        }
        if sizes[i] > hi {
            hi = sizes[i];
        }
        i = i + 1;
    }
    assert(sizes@.take(sizes@.len() as int) =~= sizes@);
    let mut out = "S".to_owned();
    push_i64(&mut out, lo as i64);
    if lo != hi {
        out.append("-S");
        push_i64(&mut out, hi as i64);
    }
    out
}

fn ship_name_prefix(sizes: &Vec<i32>, with_size: bool) -> (r: String)
    ensures
        r@ == ship_prefix_spec(sizes@, with_size),
{
    if !with_size {
        return String::new();
    }
    let pos = positive_sizes(sizes);
    if pos.len() == 0 {
        return String::new();
    }
    let mut out = size_range(&pos);
    out.append(" ");
    out
}

/// The agreed tracking tag of a missile list (see [`single_tag`]).
fn agreed_tag(facts: &Vec<(i32, Option<&'static str>)>) -> (r: Option<&'static str>)
    ensures
        opt_tag(r) == single_tag(facts@.map_values(|f: (i32, Option<&'static str>)| (f.0, opt_tag(f.1)))),
{
    let ghost fv = facts@.map_values(|f: (i32, Option<&'static str>)| (f.0, opt_tag(f.1)));
    let mut first: Option<&'static str> = None;
    let mut agree = true;
    let mut i: usize = 0;
    while i < facts.len()
        invariant
            i <= facts@.len(),
            fv == facts@.map_values(|f: (i32, Option<&'static str>)| (f.0, opt_tag(f.1))),
            first is None <==> forall|j: int| 0 <= j < i ==> fv[j].1 is None,
            first matches Some(t) ==> exists|j: int| 0 <= j < i && fv[j].1 == Some(t@),
            agree <==> (first matches Some(t) ==> forall|j: int| 0 <= j < i && fv[j].1 is Some ==> fv[j].1 == Some(t@)),
            first is None ==> agree,
        decreases facts@.len() - i,
    {
        assert(fv[i as int] == (facts@[i as int].0, opt_tag(facts@[i as int].1)));
        match facts[i].1 {
            Some(t) => match first {
                None => {
                    first = Some(t);
                },
                Some(f) => {
                    if !str_eq(f, t) {
                        agree = false;
                    }
                },
            },
            None => {},
        }
        i = i + 1;
    }
    proof {
        if let Some(t) = first {
            let j = choose|j: int| 0 <= j < fv.len() && fv[j].1 is Some;
            if agree {
                assert(fv[j].1 == Some(t@));
            } else {
                let k = choose|k: int| 0 <= k < fv.len() && fv[k].1 is Some && fv[k].1 != Some(t@);
                let w = choose|w: int| 0 <= w < fv.len() && fv[w].1 == Some(t@);
            }
        }
    }
    if agree {
        first
    } else {
        None
    }
}

fn missile_name_prefix(facts: &Vec<(i32, Option<&'static str>)>, with_size: bool, with_tracking: bool) -> (r: String)
    ensures
        r@ == missile_prefix_spec(
            facts@.map_values(|f: (i32, Option<&'static str>)| (f.0, opt_tag(f.1))),
            with_size,
            with_tracking,
        ),
{
    let ghost fv = facts@.map_values(|f: (i32, Option<&'static str>)| (f.0, opt_tag(f.1)));
    let mut sizes: Vec<i32> = Vec::new();
    let mut i: usize = 0;
    while i < facts.len()
        invariant
            i <= facts@.len(),
            fv == facts@.map_values(|f: (i32, Option<&'static str>)| (f.0, opt_tag(f.1))),
            sizes@ == fv.take(i as int).map_values(|f: (i32, Option<Seq<char>>)| f.0),
        decreases facts@.len() - i,
    {
        sizes.push(facts[i].0);
        assert(fv.take(i + 1).map_values(|f: (i32, Option<Seq<char>>)| f.0) =~= sizes@);
        i = i + 1;
    }
    assert(fv.take(fv.len() as int) =~= fv);
    let pos = positive_sizes(&sizes);
    let size_part: Option<String> = if with_size && pos.len() > 0 {
        Some(size_range(&pos))
    } else {
        None
    };
    let tag_part: Option<String> = if with_tracking {
        match agreed_tag(facts) {
            Some(t) => {
                let mut b = "[".to_owned();
                b.append(t);
                b.append("]");
                Some(b)
            },
            None => None,
        }
    } else {
        None
    };
    match (size_part, tag_part) {
        (Some(a), Some(b)) => {
            let mut out = a;
            out.append(" ");
            out.append(b.as_str());
            out.append(" ");
            out
        },
        (Some(a), None) => {
            let mut out = a;
            out.append(" ");
            out
        },
        (None, Some(b)) => {
            let mut out = b;
            out.append(" ");
            out
        },
        (None, None) => String::new(),
    }
}


// ── Exec: patches ───────────────────────────────────────────────────────────

/// The op a pool key gets: a name prefix or a description suffix.
#[verifier::opaque]
pub open spec fn pool_op(cooked: CookedData, opts: WeaponOptions, by_name: bool, k: Seq<char>) -> Option<OpView> {
    if by_name {
        match name_patch_for(cooked, opts, k) {
            Some(p) => Some(OpView::Prefix(p)),
            None => None,
        }
    } else {
        match desc_patch_for(cooked, opts, k) {
            Some(p) => Some(OpView::Suffix(p)),
            None => None,
        }
    }
}

/// The pools a weapons index forms, as stored.
pub open spec fn pools_ok(w: WeaponsIndex, by_name: bool, pools: StrMap<Vec<PoolMember>>) -> bool {
    &&& pools.wf()
    &&& forall|k: Seq<char>| #[trigger] stored_members(pools@, k) == pool_of(w, by_name, k)
    &&& forall|k: Seq<char>| (#[trigger] lookup(pools@, k)) is Some ==> pool_of(w, by_name, k).len() > 0
}

fn stat_block(blocks: &StrMap<String>, k: &str) -> (r: String)
    requires
        blocks.wf(),
    ensures
        r@ == match lookup_text(blocks@, k@) {
            Some(b) => b,
            None => Seq::<char>::empty(),
        },
{
    match blocks.get(k) {
        Some(b) => b.clone(),
        None => String::new(),
    }
}

/// The op one pool key gets.
fn key_op(
    cooked: &CookedData,
    opts: &WeaponOptions,
    by_name: bool,
    k: &str,
    members: &Vec<PoolMember>,
    name_pools: &StrMap<Vec<PoolMember>>,
) -> (r: Option<PatchOp>)
    requires
        cooked.locale.entries.wf(),
        cooked.weapons.ship_stat_blocks.wf(),
        cooked.weapons.missile_stat_blocks.wf(),
        members@ == pool_of(cooked.weapons, by_name, k@),
        members@.len() > 0,
        pools_ok(cooked.weapons, true, *name_pools),
    ensures
        match r {
            Some(op) => pool_op(*cooked, *opts, by_name, k@) == Some(op@),
            None => pool_op(*cooked, *opts, by_name, k@) is None,
        },
{
    reveal(pool_op);
    let named = match cooked.locale.resolve(k) {
        Some(v) => !v.as_str().is_empty(),
        None => false,
    };
    if !named {
        return None;
    }
    if !by_name {
        let in_names = name_pools.contains_key(k);
        proof {
            if !in_names {
                assert(stored_members(name_pools@, k@).len() == 0);
            }
        }
        if in_names {
            return None;
        }
    }
    proof {
        lemma_pool_valid(cooked.weapons, by_name, k@);
    }
    let target = parse_size_from_key(k);
    let ships = matched_sizes_exec(sizes_of(&cooked.weapons, members), target);
    let missiles = matched_facts_exec(facts_of(&cooked.weapons, members), target);
    if by_name {
        let prefix = if ships.len() > 0 {
            ship_name_prefix(&ships, opts.size_prefix)
        } else if missiles.len() > 0 {
            missile_name_prefix(&missiles, opts.size_prefix, opts.missile_type_prefix)
        } else {
            String::new()
        };
        if prefix.as_str().is_empty() {
            None
        } else {
            Some(PatchOp::Prefix(prefix))
        }
    } else {
        let suffix = if ships.len() > 0 && opts.weapon_stats {
            stat_block(&cooked.weapons.ship_stat_blocks, k)
        } else if missiles.len() > 0 && opts.missile_stats {
            stat_block(&cooked.weapons.missile_stat_blocks, k)
        } else {
            String::new()
        };
        if suffix.as_str().is_empty() {
            None
        } else {
            Some(PatchOp::Suffix(suffix))
        }
    }
}

/// The patches of one pool pass, in key order.
fn pool_patches(
    cooked: &CookedData,
    opts: &WeaponOptions,
    by_name: bool,
    pools: &StrMap<Vec<PoolMember>>,
    name_pools: &StrMap<Vec<PoolMember>>,
) -> (r: Vec<(String, PatchOp)>)
    requires
        cooked.locale.entries.wf(),
        cooked.weapons.ship_stat_blocks.wf(),
        cooked.weapons.missile_stat_blocks.wf(),
        pools_ok(cooked.weapons, by_name, *pools),
        pools_ok(cooked.weapons, true, *name_pools),
    ensures
        keyed_patches(patches_view(r@), |k: Seq<char>| pool_op(*cooked, *opts, by_name, k)),
{
    let mut out: Vec<(String, PatchOp)> = Vec::new();
    let ghost mut idx: Seq<int> = Seq::empty();
    let mut i: usize = 0;
    proof {
        pools.lemma_wf_sorted();
    }
    while i < pools.len()
        invariant
            cooked.locale.entries.wf(),
            cooked.weapons.ship_stat_blocks.wf(),
            cooked.weapons.missile_stat_blocks.wf(),
            pools_ok(cooked.weapons, by_name, *pools),
            pools_ok(cooked.weapons, true, *name_pools),
            crate::strmap::entries_sorted(pools@),
            i <= pools@.len(),
            idx.len() == out@.len(),
            forall|a: int, b: int| 0 <= a < b < idx.len() ==> idx[a] < idx[b],
            forall|a: int| 0 <= a < idx.len() ==> 0 <= #[trigger] idx[a] < i,
            forall|a: int|
                0 <= a < out@.len() ==> (#[trigger] out@[a]).0@ == pools@[idx[a]].0 && pool_op(
                    *cooked,
                    *opts,
                    by_name,
                    out@[a].0@,
                ) == Some(out@[a].1@),
            forall|j: int|
                0 <= j < i && pool_op(*cooked, *opts, by_name, #[trigger] pools@[j].0) is Some ==> exists|a: int|
                    0 <= a < out@.len() && out@[a].0@ == pools@[j].0,
        decreases pools@.len() - i,
    {
        let k = pools.key_at(i);
        let members = pools.value_at(i);
        proof {
            crate::strmap::lemma_lookup_at(pools@, i as int);
            assert(stored_members(pools@, k@) == pool_of(cooked.weapons, by_name, k@));
        }
        match key_op(cooked, opts, by_name, k, members, name_pools) {
            Some(op) => {
                let ghost before = out@;
                out.push((k.to_owned(), op));
                proof {
                    idx = idx.push(i as int);
                    assert(out@[out@.len() - 1].0@ == pools@[i as int].0);
                    assert forall|a: int| 0 <= a < out@.len() implies (#[trigger] out@[a]).0@ == pools@[idx[a]].0
                        && pool_op(*cooked, *opts, by_name, out@[a].0@) == Some(out@[a].1@) by {
                        if a < before.len() {
                            assert(out@[a] == before[a]);
                        }
                    }
                    assert forall|j: int|
                        0 <= j < i + 1 && pool_op(*cooked, *opts, by_name, #[trigger] pools@[j].0) is Some implies exists|a: int|
                            0 <= a < out@.len() && out@[a].0@ == pools@[j].0 by {
                        if j < i {
                            let a = choose|a: int| 0 <= a < before.len() && before[a].0@ == pools@[j].0;
                            assert(out@[a] == before[a]);
                        } else {
                            assert(out@[out@.len() - 1].0@ == pools@[j].0);
                        }
                    }
                }
            },
            None => {
                assert(k@ == pools@[i as int].0);
            },
        }
        i = i + 1;
    }
    proof {
        let pv = patches_view(out@);
        assert forall|a: int, b: int| 0 <= a < b < pv.len() implies lex_lt(pv[a].0, pv[b].0) by {
            assert(pv[a].0 == out@[a].0@);
            assert(pv[b].0 == out@[b].0@);
        }
        assert forall|a: int| 0 <= a < pv.len() implies pool_op(*cooked, *opts, by_name, #[trigger] pv[a].0) == Some(pv[a].1) by {
            assert(pv[a] == (out@[a].0@, out@[a].1@));
        }
        assert forall|k: Seq<char>| (#[trigger] pool_op(*cooked, *opts, by_name, k)) is Some implies exists|a: int|
            0 <= a < pv.len() && pv[a].0 == k by {
            reveal(pool_op);
            assert(pool_of(cooked.weapons, by_name, k).len() > 0);
            assert(stored_members(pools@, k).len() > 0);
            assert(lookup(pools@, k) is Some);
            let j = choose|j: int| 0 <= j < pools@.len() && pools@[j].0 == k;
            assert(pool_op(*cooked, *opts, by_name, pools@[j].0) is Some);
            let a = choose|a: int| 0 <= a < out@.len() && out@[a].0@ == pools@[j].0;
            assert(pv[a].0 == out@[a].0@);
        }
    }
    out
}

/// The weapon enhancer's op-set: the name prefixes (key order), then the
/// description suffixes (key order).
pub open spec fn weapon_patches_ok(cooked: CookedData, opts: WeaponOptions, patches: Seq<(Seq<char>, OpView)>) -> bool {
    exists|n: int|
        0 <= n <= patches.len() && keyed_patches(patches.take(n), |k: Seq<char>| pool_op(cooked, opts, true, k))
            && keyed_patches(patches.skip(n), |k: Seq<char>| pool_op(cooked, opts, false, k))
}

/// Add size prefixes, missile tracking type, and combat stats to weapon
/// descriptions.
pub struct WeaponEnhancer;

impl WeaponEnhancer {
    /// The op-set for the given cooked data and options.
    pub fn weapon_ops(cooked: &CookedData, opts: &WeaponOptions) -> (r: OpSet)
        requires
            cooked.locale.entries.wf(),
            cooked.weapons.ship_stat_blocks.wf(),
            cooked.weapons.missile_stat_blocks.wf(),
        ensures
            r.renames@.len() == 0,
            weapon_patches_ok(*cooked, *opts, patches_view(r.patches@)),
    {
        let name_pools = build_pools(&cooked.weapons, true);
        let desc_pools = build_pools(&cooked.weapons, false);
        let mut patches = pool_patches(cooked, opts, true, &name_pools, &name_pools);
        let mut descs = pool_patches(cooked, opts, false, &desc_pools, &name_pools);
        let ghost a = patches_view(patches@);
        let ghost b = patches_view(descs@);
        patches.append(&mut descs);
        proof {
            let pv = patches_view(patches@);
            assert(pv =~= a + b);
            assert(pv.take(a.len() as int) =~= a);
            assert(pv.skip(a.len() as int) =~= b);
        }
        OpSet { renames: Vec::new(), patches }
    }
}

/// The option values a config selects (each defaulting to on).
pub open spec fn weapon_options_of(config: PatcherConfig) -> WeaponOptions {
    WeaponOptions {
        size_prefix: option_bool(config, "size_prefix"@, true),
        missile_type_prefix: option_bool(config, "missile_type_prefix"@, true),
        weapon_stats: option_bool(config, "weapon_stats"@, true),
        missile_stats: option_bool(config, "missile_stats"@, true),
    }
}

fn toggle(id: &str, label: &str, description: &str) -> (r: PatcherOption)
    ensures
        r.id@ == id@,
        r.label@ == label@,
        r.description@ == description@,
        r.kind is Bool,
        r.default@ == "true"@,
{
    PatcherOption {
        id: id.to_owned(),
        label: label.to_owned(),
        description: description.to_owned(),
        kind: OptionKind::Bool,
        default: "true".to_owned(),
    }
}

impl crate::Patcher for WeaponEnhancer {
    open spec fn spec_derive_ok(&self, cooked: CookedData, config: PatcherConfig, r: Result<OpSetView, Seq<char>>) -> bool {
        match r {
            Ok(v) => exists|ops: OpSet| #[trigger] ops_view(ops) == v && ops.renames@.len() == 0 && weapon_patches_ok(cooked, weapon_options_of(config), patches_view(ops.patches@)),
            Err(_) => false,
        }
    }

    open spec fn spec_id(&self) -> Seq<char> {
        "weapon_enhancer"@
    }

    open spec fn spec_default_enabled(&self) -> bool {
        true
    }

    open spec fn spec_priority(&self) -> u32 {
        100
    }

    open spec fn spec_name(&self) -> Seq<char> {
        "Weapon Enhancer"@
    }

    open spec fn spec_description(&self) -> Seq<char> {
        "Add size prefixes, missile tracking type, and combat stats to weapon descriptions"@
    }

    open spec fn spec_uses_replace_ops(&self) -> bool {
        false
    }

    open spec fn spec_options(&self) -> Seq<crate::ops::OptionText> {
        seq![
            ("size_prefix"@, "Size prefix"@, "Add weapon size prefix to names (e.g. S3 Attrition)"@, "true"@, None),
            (
                "missile_type_prefix"@,
                "Missile/torpedo type prefix"@,
                "Add tracking type prefix to missile names (e.g. [IR] Ignite)"@,
                "true"@,
                None,
            ),
            (
                "weapon_stats"@,
                "Weapon stats"@,
                "Append damage, penetration, speed, and ammo stats to weapon descriptions"@,
                "true"@,
                None,
            ),
            (
                "missile_stats"@,
                "Missile/torpedo stats"@,
                "Append damage, speed, arm time, and lock stats to missile descriptions"@,
                "true"@,
                None,
            ),
        ]
    }

    fn id(&self) -> (r: &str) {
        "weapon_enhancer"
    }

    fn name(&self) -> (r: &str)
        ensures
            r@ == "Weapon Enhancer"@,
    {
        "Weapon Enhancer"
    }

    fn description(&self) -> (r: &str)
        ensures
            r@ == "Add size prefixes, missile tracking type, and combat stats to weapon descriptions"@,
    {
        "Add size prefixes, missile tracking type, and combat stats to weapon descriptions"
    }

    fn default_enabled(&self) -> (b: bool) {
        true
    }

    fn uses_replace_ops(&self) -> (b: bool)
        ensures
            b == false,
    {
        false
    }

    fn priority(&self) -> (p: u32) {
        100
    }

    /// Four on-by-default toggles: `size_prefix`, `missile_type_prefix`,
    /// `weapon_stats`, `missile_stats`.
    fn options(&self) -> (r: Vec<PatcherOption>)
        ensures
            r@.map_values(|o: PatcherOption| o.id@) == seq![
                "size_prefix"@,
                "missile_type_prefix"@,
                "weapon_stats"@,
                "missile_stats"@,
            ],
            forall|i: int| 0 <= i < r@.len() ==> (#[trigger] r@[i]).kind is Bool && r@[i].default@ == "true"@,
    {
        let mut v: Vec<PatcherOption> = Vec::new();
        v.push(toggle("size_prefix", "Size prefix", "Add weapon size prefix to names (e.g. S3 Attrition)"));
        v.push(
            toggle(
                "missile_type_prefix",
                "Missile/torpedo type prefix",
                "Add tracking type prefix to missile names (e.g. [IR] Ignite)",
            ),
        );
        v.push(
            toggle(
                "weapon_stats",
                "Weapon stats",
                "Append damage, penetration, speed, and ammo stats to weapon descriptions",
            ),
        );
        v.push(
            toggle(
                "missile_stats",
                "Missile/torpedo stats",
                "Append damage, speed, arm time, and lock stats to missile descriptions",
            ),
        );
        assert(v@.map_values(|o: PatcherOption| o.id@) =~= seq![
            "size_prefix"@,
            "missile_type_prefix"@,
            "weapon_stats"@,
            "missile_stats"@,
        ]);
        assert(crate::ops::options_text(v@) =~= self.spec_options());
        v
    }

    fn derive(&self, cooked: &CookedData, config: &PatcherConfig) -> (r: Result<OpSet, String>)
        ensures
            r matches Ok(ops) && ops.renames@.len() == 0 && weapon_patches_ok(
                *cooked,
                weapon_options_of(*config),
                patches_view(ops.patches@),
            ),
    {
        let opts = WeaponOptions {
            size_prefix: config.get_bool("size_prefix", true),
            missile_type_prefix: config.get_bool("missile_type_prefix", true),
            weapon_stats: config.get_bool("weapon_stats", true),
            missile_stats: config.get_bool("missile_stats", true),
        };
        Ok(WeaponEnhancer::weapon_ops(cooked, &opts))
    }
}

} // verus!

verus! {

// ── Stat-block pools ────────────────────────────────────────────────────────

/// The ship-weapon positions among pool members, in order.
pub open spec fn ship_positions(members: Seq<PoolMember>) -> Seq<usize>
    decreases members.len(),
{
    if members.len() == 0 {
        Seq::empty()
    } else {
        let prev = ship_positions(members.drop_last());
        match members.last() {
            PoolMember::Ship(i) => prev.push(i),
            PoolMember::Missile(_) => prev,
        }
    }
}

/// The missile positions among pool members, in order.
pub open spec fn missile_positions(members: Seq<PoolMember>) -> Seq<usize>
    decreases members.len(),
{
    if members.len() == 0 {
        Seq::empty()
    } else {
        let prev = missile_positions(members.drop_last());
        match members.last() {
            PoolMember::Missile(i) => prev.push(i),
            PoolMember::Ship(_) => prev,
        }
    }
}

/// The positions whose entry has size `t` (`size` reads an entry's size).
pub open spec fn sized(pos: Seq<usize>, size: spec_fn(usize) -> i32, t: int) -> Seq<usize>
    decreases pos.len(),
{
    if pos.len() == 0 {
        Seq::empty()
    } else {
        let prev = sized(pos.drop_last(), size, t);
        if size(pos.last()) == t {
            prev.push(pos.last())
        } else {
            prev
        }
    }
}

/// The positions matching the key's size hint; all of them when none
/// matches or the key carries no hint.
pub open spec fn matched_positions(pos: Seq<usize>, size: spec_fn(usize) -> i32, target: Option<int>) -> Seq<usize> {
    match target {
        Some(t) => if sized(pos, size, t).len() == 0 {
            pos
        } else {
            sized(pos, size, t)
        },
        None => pos,
    }
}

pub open spec fn ship_size_at(w: WeaponsIndex) -> spec_fn(usize) -> i32 {
    |i: usize| w.ship_weapons@[i as int].size
}

pub open spec fn missile_size_at(w: WeaponsIndex) -> spec_fn(usize) -> i32 {
    |i: usize| w.missiles@[i as int].size
}

/// One description pool whose stat block the enhancer may show: the
/// stripped description key and the positions of the ship weapons and
/// missiles its size hint selects.
pub struct StatPool {
    pub key: String,
    pub ships: Vec<usize>,
    pub missiles: Vec<usize>,
}

/// `p` is the stat pool of description key `p.key`.
pub open spec fn stat_pool_of(w: WeaponsIndex, p: StatPool) -> bool {
    let members = pool_of(w, false, p.key@);
    let target = parse_size_spec(p.key@);
    &&& p.ships@ == matched_positions(ship_positions(members), ship_size_at(w), target)
    &&& p.missiles@ == matched_positions(missile_positions(members), missile_size_at(w), target)
}

fn keep_ships_sized(w: &WeaponsIndex, pos: &Vec<usize>, t: i32) -> (r: Vec<usize>)
    requires
        forall|q: int| 0 <= q < pos@.len() ==> #[trigger] pos@[q] < w.ship_weapons@.len(),
    ensures
        r@ == sized(pos@, ship_size_at(*w), t as int),
{
    let mut r: Vec<usize> = Vec::new();
    let mut j: usize = 0;
    while j < pos.len()
        invariant
            j <= pos@.len(),
            forall|q: int| 0 <= q < pos@.len() ==> #[trigger] pos@[q] < w.ship_weapons@.len(),
            r@ == sized(pos@.take(j as int), ship_size_at(*w), t as int),
        decreases pos@.len() - j,
    {
        proof {
            assert(pos@.take(j + 1).drop_last() =~= pos@.take(j as int));
            assert(pos@.take(j + 1).last() == pos@[j as int]);
        }
        let p = pos[j];
        assert(p < w.ship_weapons@.len());
        if w.ship_weapons[p].size == t {
            r.push(p);
        }
        j = j + 1;
    }
    assert(pos@.take(pos@.len() as int) =~= pos@);
    r
}

fn keep_missiles_sized(w: &WeaponsIndex, pos: &Vec<usize>, t: i32) -> (r: Vec<usize>)
    requires
        forall|q: int| 0 <= q < pos@.len() ==> #[trigger] pos@[q] < w.missiles@.len(),
    ensures
        r@ == sized(pos@, missile_size_at(*w), t as int),
{
    let mut r: Vec<usize> = Vec::new();
    let mut j: usize = 0;
    while j < pos.len()
        invariant
            j <= pos@.len(),
            forall|q: int| 0 <= q < pos@.len() ==> #[trigger] pos@[q] < w.missiles@.len(),
            r@ == sized(pos@.take(j as int), missile_size_at(*w), t as int),
        decreases pos@.len() - j,
    {
        proof {
            assert(pos@.take(j + 1).drop_last() =~= pos@.take(j as int));
            assert(pos@.take(j + 1).last() == pos@[j as int]);
        }
        let p = pos[j];
        assert(p < w.missiles@.len());
        if w.missiles[p].size == t {
            r.push(p);
        }
        j = j + 1;
    }
    assert(pos@.take(pos@.len() as int) =~= pos@);
    r
}

/// The ship-weapon and missile positions among valid pool members.
fn positions_of(w: &WeaponsIndex, members: &Vec<PoolMember>) -> (r: (Vec<usize>, Vec<usize>))
    requires
        members_valid(*w, members@),
    ensures
        r.0@ == ship_positions(members@),
        r.1@ == missile_positions(members@),
        forall|q: int| 0 <= q < r.0@.len() ==> #[trigger] r.0@[q] < w.ship_weapons@.len(),
        forall|q: int| 0 <= q < r.1@.len() ==> #[trigger] r.1@[q] < w.missiles@.len(),
{
    let ghost mv = members@;
    let mut ships: Vec<usize> = Vec::new();
    let mut missiles: Vec<usize> = Vec::new();
    let mut m: usize = 0;
    while m < members.len()
        invariant
            m <= mv.len(),
            mv == members@,
            members_valid(*w, mv),
            ships@ == ship_positions(mv.take(m as int)),
            missiles@ == missile_positions(mv.take(m as int)),
            forall|q: int| 0 <= q < ships@.len() ==> #[trigger] ships@[q] < w.ship_weapons@.len(),
            forall|q: int| 0 <= q < missiles@.len() ==> #[trigger] missiles@[q] < w.missiles@.len(),
        decreases mv.len() - m,
    {
        proof {
            assert(mv.take(m + 1).drop_last() =~= mv.take(m as int));
            assert(mv.take(m + 1).last() == mv[m as int]);
        }
        match members[m] {
            PoolMember::Ship(s) => {
                ships.push(s);
            },
            PoolMember::Missile(s) => {
                missiles.push(s);
            },
        }
        m = m + 1;
    }
    proof {
        assert(mv.take(mv.len() as int) =~= mv);
    }
    (ships, missiles)
}

/// The stat pool of one description key, from its pool members.
#[verifier::rlimit(60)]
fn stat_pool_for(w: &WeaponsIndex, key: &str, members: &Vec<PoolMember>) -> (p: StatPool)
    requires
        members@ == pool_of(*w, false, key@),
    ensures
        stat_pool_of(*w, p),
        p.key@ == key@,
{
    proof {
        lemma_pool_valid(*w, false, key@);
    }
    let (ships, missiles) = positions_of(w, members);
    let target = parse_size_from_key(key);
    let (ms, mm) = match target {
        Some(t) => {
            let s2 = keep_ships_sized(w, &ships, t);
            let m2 = keep_missiles_sized(w, &missiles, t);
            let s3 = if s2.len() == 0 {
                ships
            } else {
                s2
            };
            let m3 = if m2.len() == 0 {
                missiles
            } else {
                m2
            };
            (s3, m3)
        },
        None => (ships, missiles),
    };
    StatPool { key: key.to_owned(), ships: ms, missiles: mm }
}

/// The description pools with the ship weapons and missiles each pool's
/// size hint selects, in key order.
pub fn stat_pools(w: &WeaponsIndex) -> (r: Vec<StatPool>)
    ensures
        forall|i: int| 0 <= i < r@.len() ==> stat_pool_of(*w, #[trigger] r@[i]),
        forall|i: int, j: int| 0 <= i < j < r@.len() ==> lex_lt(r@[i].key@, r@[j].key@),
        forall|k: Seq<char>|
            #![trigger pool_of(*w, false, k)]
            pool_of(*w, false, k).len() > 0 <==> exists|i: int| 0 <= i < r@.len() && r@[i].key@ == k,
{
    let pools = build_pools(w, false);
    proof {
        pools.lemma_wf_sorted();
    }
    let mut r: Vec<StatPool> = Vec::new();
    let mut i: usize = 0;
    let n = pools.len();
    while i < n
        invariant
            pools.wf(),
            n == pools@.len(),
            i <= n,
            forall|k: Seq<char>| #[trigger] stored_members(pools@, k) == pool_of(*w, false, k),
            r@.len() == i,
            forall|q: int| 0 <= q < i ==> stat_pool_of(*w, #[trigger] r@[q]) && r@[q].key@ == pools@[q].0,
        decreases n - i,
    {
        let key = pools.key_at(i);
        let members = pools.value_at(i);
        proof {
            pools.lemma_wf_sorted();
            crate::strmap::lemma_lookup_at(pools@, i as int);
            assert(stored_members(pools@, key@) == pool_of(*w, false, key@));
        }
        let p = stat_pool_for(w, key, members);
        r.push(p);
        i = i + 1;
    }
    proof {
        lemma_stat_pool_keys(*w, pools@, r@);
    }
    r
}

proof fn lemma_stat_pool_keys(w: WeaponsIndex, pools: Seq<(Seq<char>, Vec<PoolMember>)>, r: Seq<StatPool>)
    requires
        crate::strmap::entries_sorted(pools),
        r.len() == pools.len(),
        forall|q: int| 0 <= q < r.len() ==> (#[trigger] r[q]).key@ == pools[q].0,
        forall|k: Seq<char>| #[trigger] stored_members(pools, k) == pool_of(w, false, k),
        forall|k: Seq<char>| (#[trigger] lookup(pools, k)) is Some ==> pool_of(w, false, k).len() > 0,
    ensures
        forall|i: int, j: int| 0 <= i < j < r.len() ==> lex_lt(r[i].key@, r[j].key@),
        forall|k: Seq<char>|
            #![trigger pool_of(w, false, k)]
            pool_of(w, false, k).len() > 0 <==> exists|i: int| 0 <= i < r.len() && r[i].key@ == k,
{
    assert forall|i: int, j: int| 0 <= i < j < r.len() implies lex_lt(r[i].key@, r[j].key@) by {
        assert(r[i].key@ == pools[i].0);
        assert(r[j].key@ == pools[j].0);
    }
    assert forall|k: Seq<char>|
        #![trigger pool_of(w, false, k)]
        pool_of(w, false, k).len() > 0 <==> exists|i: int| 0 <= i < r.len() && r[i].key@ == k by {
        if pool_of(w, false, k).len() > 0 {
            assert(stored_members(pools, k).len() > 0);
            assert(lookup(pools, k) is Some);
            let q = choose|q: int| 0 <= q < pools.len() && pools[q].0 == k;
            assert(r[q].key@ == k);
        }
        if exists|q: int| 0 <= q < r.len() && r[q].key@ == k {
            let q = choose|q: int| 0 <= q < r.len() && r[q].key@ == k;
            assert(r[q].key@ == pools[q].0);
            crate::strmap::lemma_lookup_at(pools, q);
        }
    }
}

} // verus!
