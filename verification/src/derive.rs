//! The derive stage and its op-set cache.
//!
//! Derive is the only stage that needs game data ([`CookedData`]); its
//! output — one [`OpSet`] per patcher — is cached per (build staleness
//! key, patcher, options hash). Toggling patchers or re-applying after a
//! foreign write then never re-derives.
//!
//! The cache is a value here ([`OpsCache`]); reading and writing its file
//! (`ops-{channel}.json` under the langpatch data dir, see [`cache_path`])
//! is the caller's part.

use vstd::prelude::*;

use crate::Patcher;
use crate::cooked::CookedData;
use crate::hashing::{config_hash, config_json, patcher_config_json, stable_hash_of};
use crate::merge::{join_path, path_join};
use crate::ops::{LangpatchConfig, OpSet, OpSetView, PatcherConfig, enabled_spec, ops_view};
use crate::strmap::{StrMap, lookup};
use crate::text::{KeyOrder, chars_of, compare_chars, join_with, lex_lt, str_eq};

verus! {

/// One patcher's cached derive result.
pub struct CacheEntry {
    pub options_hash: String,
    pub ops: OpSet,
}

/// Per-channel cache: all patcher op-sets for one build, by patcher id.
pub struct OpsCache {
    pub staleness_key: String,
    pub entries: StrMap<CacheEntry>,
}

impl OpsCache {
    /// The empty cache (what a missing or unreadable cache file reads as).
    pub fn new() -> (r: OpsCache)
        ensures
            r.staleness_key@.len() == 0,
            r.entries.wf(),
            r.entries@.len() == 0,
    {
        OpsCache { staleness_key: String::new(), entries: StrMap::new() }
    }
}

/// The cache file of a channel: `ops-{channel_key}.json` in `data_dir`.
pub fn cache_path(data_dir: &str, channel_key: &str) -> (r: String)
    ensures
        r@ == path_join(data_dir@, "ops-"@ + channel_key@ + ".json"@),
{
    let mut name = "ops-".to_owned();
    name.append(channel_key);
    name.append(".json");
    join_path(data_dir, name.as_str())
}

/// One enabled patcher's ops, ready for the apply stage.
pub struct PatcherOps {
    pub id: String,
    pub priority: u32,
    pub ops: OpSet,
}

/// Cache-miss error: derive needed game data the caller didn't provide.
#[derive(Debug)]
pub struct DeriveError {
    /// Ids of the patchers whose op-sets were not cached, in registry order.
    pub missing: Vec<String>,
}

/// Why [`derive_ops`] produced no op-sets.
#[derive(Debug)]
pub enum DeriveOpsError {
    /// Some op-sets were not cached and no cooked data was given.
    NeedsCookedData(DeriveError),
    /// A patcher's derive failed.
    PatcherFailed { id: String, message: String },
}

/// Each id in double quotes.
pub open spec fn quoted_ids(ids: Seq<String>) -> Seq<Seq<char>> {
    ids.map_values(|s: String| seq!['"'] + s@ + seq!['"'])
}

impl DeriveError {
    /// `derive needs cooked game data for ["a", "b"] but none was provided`.
    pub fn message(&self) -> (r: String)
        ensures
            r@ == "derive needs cooked game data for ["@ + join_with(quoted_ids(self.missing@), ", "@)
                + "] but none was provided"@,
    {
        let mut out = "derive needs cooked game data for [".to_owned();
        let ghost head = out@;
        let mut i: usize = 0;
        while i < self.missing.len()
            invariant
                i <= self.missing@.len(),
                out@ == head + join_with(quoted_ids(self.missing@.take(i as int)), ", "@),
            decreases self.missing@.len() - i,
        {
            let ghost before = out@;
            if i > 0 {
                out.append(", ");
            }
            out.push('"');
            out.append(self.missing[i].as_str());
            out.push('"');
            proof {
                let q = quoted_ids(self.missing@.take(i + 1));
                assert(q.drop_last() =~= quoted_ids(self.missing@.take(i as int)));
                assert(q.last() == seq!['"'] + self.missing@[i as int]@ + seq!['"']);
                if i == 0 {
                    assert(q =~= seq![q.last()]);
                    assert(out@ =~= head + q.last());
                } else {
                    assert(out@ =~= before + ", "@ + q.last());
                }
            }
            i = i + 1;
        }
        assert(self.missing@.take(self.missing@.len() as int) =~= self.missing@);
        out.append("] but none was provided");
        out
    }
}

/// Patcher `i` of `ps` is enabled under `config`.
pub open spec fn enabled_at(config: LangpatchConfig, ps: Seq<Box<dyn Patcher>>, i: int) -> bool {
    enabled_spec(config, ps[i].spec_id(), ps[i].spec_default_enabled())
}

/// The options hash a patcher's cache entry must carry under `config`.
pub open spec fn options_hash_for(config: LangpatchConfig, id: Seq<char>) -> Seq<char> {
    match lookup(config.patchers@, id) {
        Some(c) => stable_hash_of(patcher_config_json(c)),
        None => stable_hash_of(config_json(None, Seq::empty())),
    }
}

/// The cache holds a current op-set for patcher `id`: same build, same
/// options hash.
pub open spec fn cache_hit(cache: OpsCache, key: Seq<char>, config: LangpatchConfig, id: Seq<char>) -> bool {
    &&& cache.staleness_key@ == key
    &&& lookup(cache.entries@, id) matches Some(e) && e.options_hash@ == options_hash_for(config, id)
}

/// The cache's entry for `id` holds exactly `ops`.
pub open spec fn entry_matches(cache: OpsCache, id: Seq<char>, ops: OpSet) -> bool {
    match lookup(cache.entries@, id) {
        Some(e) => ops_view(e.ops) == ops_view(ops),
        None => false,
    }
}

/// `pc` is the config [`LangpatchConfig::patcher_config`] gives for `id`.
pub open spec fn config_for(pc: PatcherConfig, config: LangpatchConfig, id: Seq<char>) -> bool {
    &&& pc.options.wf()
    &&& match lookup(config.patchers@, id) {
        Some(c) => pc.enabled == c.enabled && pc.options@ == c.options@,
        None => pc.enabled is None && pc.options@.len() == 0,
    }
}

/// Patcher `j` of `ps` is enabled, has no current op-set in `cache`, and
/// its derive, handed `cooked` and its config, may give `r`.
pub open spec fn derived_at(
    cache: OpsCache,
    key: Seq<char>,
    config: LangpatchConfig,
    cooked: CookedData,
    ps: Seq<Box<dyn Patcher>>,
    j: int,
    r: Result<OpSetView, Seq<char>>,
) -> bool {
    &&& 0 <= j < ps.len()
    &&& enabled_at(config, ps, j)
    &&& !cache_hit(cache, key, config, ps[j].spec_id())
    &&& exists|pc: PatcherConfig| config_for(pc, config, ps[j].spec_id()) && #[trigger] ps[j].spec_derive_ok(cooked, pc, r)
}

/// The cooked data behind an optional reference.
pub open spec fn opt_cooked(cooked: Option<&CookedData>) -> Option<CookedData> {
    match cooked {
        Some(c) => Some(*c),
        None => None,
    }
}

/// Where a served op-set `v` for `id` comes from: the cache's current
/// entry, or a fresh derive by an enabled patcher with that id that the
/// cache missed.
pub open spec fn served_from(
    cache: OpsCache,
    key: Seq<char>,
    config: LangpatchConfig,
    cooked: Option<CookedData>,
    ps: Seq<Box<dyn Patcher>>,
    id: Seq<char>,
    v: OpSetView,
) -> bool {
    ||| cache_hit(cache, key, config, id) && (lookup(cache.entries@, id) matches Some(e) && ops_view(e.ops) == v)
    ||| (cooked matches Some(c) && exists|j: int|
        ps[j].spec_id() == id && #[trigger] derived_at(cache, key, config, c, ps, j, Ok(v)))
}

/// Every enabled patcher has a current cached op-set.
pub open spec fn cache_complete_spec(
    cache: OpsCache,
    key: Seq<char>,
    config: LangpatchConfig,
    patchers: Seq<Box<dyn Patcher>>,
) -> bool {
    forall|i: int|
        0 <= i < patchers.len() && #[trigger] enabled_at(config, patchers, i) ==> cache_hit(
            cache,
            key,
            config,
            patchers[i].spec_id(),
        )
}

/// `(priority, id)` order, ties kept in arrival order.
pub open spec fn key_le(a: (u32, Seq<char>), b: (u32, Seq<char>)) -> bool {
    a.0 < b.0 || (a.0 == b.0 && !lex_lt(b.1, a.1))
}

/// `x` inserted after every element that sorts at or before it.
pub open spec fn insert_key(s: Seq<(u32, Seq<char>)>, x: (u32, Seq<char>)) -> Seq<(u32, Seq<char>)>
    decreases s.len(),
{
    if s.len() == 0 {
        seq![x]
    } else if key_le(s.last(), x) {
        s.push(x)
    } else {
        insert_key(s.drop_last(), x).push(s.last())
    }
}

/// Stable sort by `(priority, id)`.
pub open spec fn sort_keys(s: Seq<(u32, Seq<char>)>) -> Seq<(u32, Seq<char>)>
    decreases s.len(),
{
    if s.len() == 0 {
        Seq::empty()
    } else {
        insert_key(sort_keys(s.drop_last()), s.last())
    }
}

/// The patcher is served by a derive run: enabled, and either cached or
/// derivable (cooked data present).
pub open spec fn served_at(
    cache0: OpsCache,
    key: Seq<char>,
    config: LangpatchConfig,
    has_cooked: bool,
    ps: Seq<Box<dyn Patcher>>,
    i: int,
) -> bool {
    enabled_at(config, ps, i) && (has_cooked || cache_hit(cache0, key, config, ps[i].spec_id()))
}

/// `(priority, id)` of the served patchers, in registry order.
pub open spec fn served_keys(
    cache0: OpsCache,
    key: Seq<char>,
    config: LangpatchConfig,
    has_cooked: bool,
    ps: Seq<Box<dyn Patcher>>,
) -> Seq<(u32, Seq<char>)>
    decreases ps.len(),
{
    if ps.len() == 0 {
        Seq::empty()
    } else {
        let prev = served_keys(cache0, key, config, has_cooked, ps.drop_last());
        let n = ps.len() - 1;
        if served_at(cache0, key, config, has_cooked, ps, n) {
            prev.push((ps[n].spec_priority(), ps[n].spec_id()))
        } else {
            prev
        }
    }
}

/// Ids of the enabled patchers without a current cached op-set, in
/// registry order.
pub open spec fn missing_ids(
    cache0: OpsCache,
    key: Seq<char>,
    config: LangpatchConfig,
    ps: Seq<Box<dyn Patcher>>,
) -> Seq<Seq<char>>
    decreases ps.len(),
{
    if ps.len() == 0 {
        Seq::empty()
    } else {
        let prev = missing_ids(cache0, key, config, ps.drop_last());
        let n = ps.len() - 1;
        if enabled_at(config, ps, n) && !cache_hit(cache0, key, config, ps[n].spec_id()) {
            prev.push(ps[n].spec_id())
        } else {
            prev
        }
    }
}

/// The `(priority, id)` keys of a list of patcher op-sets.
pub open spec fn ops_keys(out: Seq<PatcherOps>) -> Seq<(u32, Seq<char>)> {
    out.map_values(|p: PatcherOps| (p.priority, p.id@))
}

/// The cache the run starts from: as given when it is for this build,
/// else emptied and re-keyed.
pub open spec fn start_cache_ok(cache0: OpsCache, old_cache: OpsCache, key: Seq<char>) -> bool {
    &&& cache0.staleness_key@ == key
    &&& if old_cache.staleness_key@ == key {
        cache0.entries@ == old_cache.entries@
    } else {
        cache0.entries@.len() == 0
    }
}

/// The options hash for patcher `id` under `config`.
fn options_hash(config: &LangpatchConfig, id: &str) -> (r: String)
    requires
        config.wf(),
    ensures
        r@ == options_hash_for(*config, id@),
{
    let c = config.patcher_config(id);
    let h = config_hash(&c);
    proof {
        match lookup(config.patchers@, id@) {
            Some(stored) => {},
            None => {
                assert(c.options@ =~= Seq::<(Seq<char>, String)>::empty());
            },
        }
    }
    h
}

/// The effective enabled state of a registered patcher.
fn enabled_in(config: &LangpatchConfig, p: &Box<dyn Patcher>) -> (b: bool)
    requires
        config.patchers.wf(),
    ensures
        b == enabled_spec(*config, p.spec_id(), p.spec_default_enabled()),
{
    match config.patchers.get(p.id()) {
        Some(c) => match c.enabled {
            Some(b) => b,
            None => p.default_enabled(),
        },
        None => p.default_enabled(),
    }
}

/// Whether the cache holds a current op-set for patcher `id`.
fn entry_is_current(cache: &OpsCache, key: &str, config: &LangpatchConfig, id: &str) -> (b: bool)
    requires
        cache.entries.wf(),
        config.wf(),
    ensures
        b == cache_hit(*cache, key@, *config, id@),
{
    if !str_eq(cache.staleness_key.as_str(), key) {
        return false;
    }
    match cache.entries.get(id) {
        Some(e) => {
            let h = options_hash(config, id);
            str_eq(e.options_hash.as_str(), h.as_str())
        },
        None => false,
    }
}

/// Do the cached op-sets already cover every enabled patcher for this
/// build + config? When true, [`derive_ops`] won't call any
/// [`Patcher::derive`] — callers can skip loading the cooked data.
pub fn cache_complete(
    cache: &OpsCache,
    staleness_key: &str,
    config: &LangpatchConfig,
    patchers: &Vec<Box<dyn Patcher>>,
) -> (b: bool)
    requires
        cache.entries.wf(),
        config.wf(),
    ensures
        b == cache_complete_spec(*cache, staleness_key@, *config, patchers@),
{
    let mut i: usize = 0;
    while i < patchers.len()
        invariant
            cache.entries.wf(),
            config.wf(),
            i <= patchers@.len(),
            forall|j: int|
                0 <= j < i && #[trigger] enabled_at(*config, patchers@, j) ==> cache_hit(
                    *cache,
                    staleness_key@,
                    *config,
                    patchers@[j].spec_id(),
                ),
        decreases patchers@.len() - i,
    {
        let p = &patchers[i];
        let en = enabled_in(config, p);
        if en {
            if !entry_is_current(cache, staleness_key, config, p.id()) {
                assert(enabled_at(*config, patchers@, i as int));
                return false;
            }
        }
        i = i + 1;
    }
    true
}

/// `prev` sorts at or before `(priority, id)`.
fn sorts_at_or_before(prev: &PatcherOps, priority: u32, id: &Vec<char>) -> (b: bool)
    ensures
        b == key_le((prev.priority, prev.id@), (priority, id@)),
{
    if prev.priority < priority {
        return true;
    }
    if prev.priority != priority {
        return false;
    }
    let prev_id = chars_of(prev.id.as_str());
    match compare_chars(id, &prev_id) {
        KeyOrder::Before => false,
        _ => true,
    }
}

/// Insert `item` into `out` after every op-set that sorts at or before it.
fn insert_sorted(out: &mut Vec<PatcherOps>, item: PatcherOps)
    ensures
        ops_keys(final(out)@) == insert_key(ops_keys(old(out)@), (item.priority, item.id@)),
        forall|k: int|
            0 <= k < final(out)@.len() ==> exists|j: int|
                (0 <= j < old(out)@.len() && #[trigger] final(out)@[k] == old(out)@[j]) || final(out)@[k]
                    == item,
{
    let ghost x = (item.priority, item.id@);
    let ghost s = ops_keys(out@);
    let item_id = chars_of(item.id.as_str());
    let mut pos = out.len();
    while pos > 0 && !sorts_at_or_before(&out[pos - 1], item.priority, &item_id)
        invariant
            pos <= out@.len(),
            out@ == old(out)@,
            s == ops_keys(out@),
            item_id@ == item.id@,
            x == (item.priority, item.id@),
            forall|q: int| pos <= q < s.len() ==> !key_le(#[trigger] s[q], x),
        decreases pos,
    {
        pos = pos - 1;
    }
    proof {
        lemma_insert_at(s, x, pos as int);
    }
    let ghost before = out@;
    out.insert(pos, item);
    assert(ops_keys(out@) =~= s.take(pos as int).push(x) + s.skip(pos as int));
    assert forall|k: int| 0 <= k < out@.len() implies exists|j: int|
        (0 <= j < before.len() && #[trigger] out@[k] == before[j]) || out@[k] == item by {
        if k < pos {
            assert(out@[k] == before[k]);
        } else if k > pos {
            assert(out@[k] == before[k - 1]);
        }
    }
}

/// Insertion after the last element at or before `x`, read positionally.
proof fn lemma_insert_at(s: Seq<(u32, Seq<char>)>, x: (u32, Seq<char>), pos: int)
    requires
        0 <= pos <= s.len(),
        pos == 0 || key_le(s[pos - 1], x),
        forall|q: int| pos <= q < s.len() ==> !key_le(#[trigger] s[q], x),
    ensures
        insert_key(s, x) == s.take(pos).push(x) + s.skip(pos),
    decreases s.len() - pos,
{
    if s.len() == 0 {
        assert(s.take(0).push(x) + s.skip(0) =~= seq![x]);
    } else if pos == s.len() {
        assert(s.take(pos).push(x) + s.skip(pos) =~= s.push(x));
    } else {
        assert(!key_le(s.last(), x));
        let t = s.drop_last();
        if pos == t.len() {
            assert(insert_key(t, x) == t.push(x)) by {
                if t.len() > 0 {
                    assert(key_le(t.last(), x));
                }
            }
        } else {
            lemma_insert_at(t, x, pos);
        }
        assert(insert_key(t, x).push(s.last()) =~= s.take(pos).push(x) + s.skip(pos));
    }
}

proof fn lemma_key_le_total(a: (u32, Seq<char>), b: (u32, Seq<char>))
    ensures
        key_le(a, b) || key_le(b, a),
{
    crate::text::lemma_lex_total(a.1, b.1);
    if lex_lt(b.1, a.1) {
        crate::text::lemma_lex_asymmetric(b.1, a.1);
    }
}

proof fn lemma_key_le_trans(a: (u32, Seq<char>), b: (u32, Seq<char>), c: (u32, Seq<char>))
    requires
        key_le(a, b),
        key_le(b, c),
    ensures
        key_le(a, c),
{
    if a.0 == b.0 && b.0 == c.0 && lex_lt(c.1, a.1) {
        crate::text::lemma_lex_total(a.1, b.1);
        if lex_lt(a.1, b.1) {
            crate::text::lemma_lex_transitive(c.1, a.1, b.1);
        } else {
            assert(a.1 =~= b.1);
        }
    }
}

/// Keys in `(priority, id)` order.
pub open spec fn keys_sorted(s: Seq<(u32, Seq<char>)>) -> bool {
    forall|i: int, j: int| 0 <= i < j < s.len() ==> key_le(s[i], s[j])
}

proof fn lemma_insert_key_sorted(s: Seq<(u32, Seq<char>)>, x: (u32, Seq<char>))
    requires
        keys_sorted(s),
    ensures
        keys_sorted(insert_key(s, x)),
        insert_key(s, x).len() == s.len() + 1,
        forall|i: int|
            0 <= i < insert_key(s, x).len() ==> #[trigger] insert_key(s, x)[i] == x || s.contains(insert_key(s, x)[i]),
    decreases s.len(),
{
    if s.len() > 0 {
        let t = s.drop_last();
        assert(keys_sorted(t));
        if !key_le(s.last(), x) {
            lemma_insert_key_sorted(t, x);
            let u = insert_key(t, x);
            lemma_key_le_total(s.last(), x);
            assert forall|i: int| 0 <= i < u.len() implies key_le(#[trigger] u[i], s.last()) by {
                if u[i] != x {
                    let k = choose|k: int| 0 <= k < t.len() && t[k] == u[i];
                    assert(s[k] == t[k]);
                }
            }
            assert forall|i: int| 0 <= i < u.len() implies #[trigger] u.push(s.last())[i] == x || s.contains(
                u.push(s.last())[i],
            ) by {
                if u[i] != x {
                    let k = choose|k: int| 0 <= k < t.len() && t[k] == u[i];
                    assert(s[k] == t[k]);
                }
            }
            assert(s.contains(s.last()));
        } else {
            assert forall|i: int| 0 <= i < s.len() implies key_le(#[trigger] s[i], x) by {
                if i < s.len() - 1 {
                    lemma_key_le_trans(s[i], s.last(), x);
                }
            }
            assert forall|i: int| 0 <= i < s.len() implies #[trigger] s.push(x)[i] == x || s.contains(s.push(x)[i]) by {
                assert(s.push(x)[i] == s[i]);
            }
        }
    }
}

proof fn lemma_sort_keys_sorted(s: Seq<(u32, Seq<char>)>)
    ensures
        keys_sorted(sort_keys(s)),
        sort_keys(s).len() == s.len(),
    decreases s.len(),
{
    if s.len() > 0 {
        lemma_sort_keys_sorted(s.drop_last());
        lemma_insert_key_sorted(sort_keys(s.drop_last()), s.last());
    }
}

/// Op-sets are applied in the order they are listed, so the list puts
/// lower priorities first: along the sorted keys, priorities never
/// decrease, and within one priority the ids ascend.
pub proof fn lemma_apply_order(s: Seq<(u32, Seq<char>)>)
    ensures
        sort_keys(s).len() == s.len(),
        forall|i: int, j: int|
            0 <= i < j < s.len() ==> (#[trigger] sort_keys(s)[i]).0 <= (#[trigger] sort_keys(s)[j]).0 && (sort_keys(
                s,
            )[i].0 == sort_keys(s)[j].0 ==> !lex_lt(sort_keys(s)[j].1, sort_keys(s)[i].1)),
{
    lemma_sort_keys_sorted(s);
    let r = sort_keys(s);
    assert forall|i: int, j: int| 0 <= i < j < s.len() implies (#[trigger] r[i]).0 <= (#[trigger] r[j]).0 && (r[i].0
        == r[j].0 ==> !lex_lt(r[j].1, r[i].1)) by {
        assert(key_le(r[i], r[j]));
    }
}

/// Produce the op-sets for every enabled patcher, in apply order
/// (priority, then id). Cached entries are reused; misses derive from
/// `cooked` and refresh `cache` (emptied first when it is for another
/// build). Pass `cooked: None` only when [`cache_complete`] said so —
/// otherwise this fails with the list of patchers that needed data. The
/// flag reports whether the cache changed and needs saving.
pub fn derive_ops(
    cache: &mut OpsCache,
    staleness_key: &str,
    cooked: Option<&CookedData>,
    config: &LangpatchConfig,
    patchers: &Vec<Box<dyn Patcher>>,
) -> (r: Result<(Vec<PatcherOps>, bool), DeriveOpsError>)
    requires
        old(cache).entries.wf(),
        config.wf(),
        cooked matches Some(c) ==> c.wf(),
    ensures
        final(cache).entries.wf(),
        final(cache).staleness_key@ == staleness_key@,
        match r {
            Ok((out, dirty)) => {
                &&& ops_keys(out@) == sort_keys(
                    served_keys(*old(cache), staleness_key@, *config, cooked is Some, patchers@),
                )
                &&& forall|i: int, j: int|
                    0 <= i < j < out@.len() ==> (#[trigger] out@[i]).priority <= (#[trigger] out@[j]).priority
                &&& forall|k: int|
                    0 <= k < out@.len() ==> cache_hit(
                        *final(cache),
                        staleness_key@,
                        *config,
                        (#[trigger] out@[k]).id@,
                    ) && entry_matches(*final(cache), out@[k].id@, out@[k].ops)
                &&& cache_complete_spec(*final(cache), staleness_key@, *config, patchers@)
                &&& forall|id: Seq<char>|
                    #[trigger] cache_hit(*old(cache), staleness_key@, *config, id) ==> lookup(
                        final(cache).entries@,
                        id,
                    ) == lookup(old(cache).entries@, id)
                &&& !dirty ==> old(cache).staleness_key@ != staleness_key@ || final(cache).entries@
                    == old(cache).entries@
                &&& dirty ==> cooked is Some
                &&& forall|k: int|
                    0 <= k < out@.len() ==> served_from(
                        *old(cache),
                        staleness_key@,
                        *config,
                        opt_cooked(cooked),
                        patchers@,
                        (#[trigger] out@[k]).id@,
                        ops_view(out@[k].ops),
                    )
            },
            Err(DeriveOpsError::NeedsCookedData(e)) => {
                &&& cooked is None
                &&& e.missing@.len() > 0
                &&& e.missing@.map_values(|s: String| s@) == missing_ids(
                    *old(cache),
                    staleness_key@,
                    *config,
                    patchers@,
                )
            },
            Err(DeriveOpsError::PatcherFailed { id, message }) => cooked matches Some(c) && exists|j: int|
                patchers@[j].spec_id() == id@ && #[trigger] derived_at(
                    *old(cache),
                    staleness_key@,
                    *config,
                    *c,
                    patchers@,
                    j,
                    Err(message@),
                ),
        },
        cooked matches Some(c) && (forall|j: int, pc: PatcherConfig, m: Seq<char>|
            0 <= j < patchers@.len() && enabled_at(*config, patchers@, j) && !cache_hit(
                *old(cache),
                staleness_key@,
                *config,
                patchers@[j].spec_id(),
            ) && config_for(pc, *config, patchers@[j].spec_id()) ==> !#[trigger] patchers@[j].spec_derive_ok(
                *c,
                pc,
                Err(m),
            )) ==> r is Ok,
        cooked is None && cache_complete_spec(*old(cache), staleness_key@, *config, patchers@) ==> r is Ok,
        cooked is None && !cache_complete_spec(*old(cache), staleness_key@, *config, patchers@) ==> r matches Err(
            DeriveOpsError::NeedsCookedData(_),
        ),
        r is Ok ==> forall|j: int|
            0 <= j < patchers@.len() && #[trigger] enabled_at(*config, patchers@, j) ==> served_at(
                *old(cache),
                staleness_key@,
                *config,
                cooked is Some,
                patchers@,
                j,
            ),
{
    let ghost cache_in = *old(cache);
    if !str_eq(cache.staleness_key.as_str(), staleness_key) {
        // New build → every cached op-set is garbage.
        *cache = OpsCache { staleness_key: staleness_key.to_owned(), entries: StrMap::new() };
    }
    let ghost cache0 = *cache;
    let has_cooked = cooked.is_some();
    proof {
        assert forall|id: Seq<char>| cache_hit(cache_in, staleness_key@, *config, id) <==> cache_hit(
            cache0,
            staleness_key@,
            *config,
            id,
        ) by {
            if cache_in.staleness_key@ != staleness_key@ {
                assert(lookup(cache0.entries@, id) is None);
            }
        }
    }
    let mut out: Vec<PatcherOps> = Vec::new();
    let mut dirty = false;
    let mut missing: Vec<String> = Vec::new();
    let mut i: usize = 0;
    while i < patchers.len()
        invariant
            cache.entries.wf(),
            config.wf(),
            cooked matches Some(c) ==> c.wf(),
            has_cooked == cooked is Some,
            cache_in == *old(cache),
            cache.staleness_key@ == staleness_key@,
            cache0.staleness_key@ == staleness_key@,
            i <= patchers@.len(),
            forall|id: Seq<char>| cache_hit(cache_in, staleness_key@, *config, id) <==> cache_hit(
                cache0,
                staleness_key@,
                *config,
                id,
            ),
            cache_in.staleness_key@ == staleness_key@ ==> cache0.entries@ == cache_in.entries@,
            ops_keys(out@) == sort_keys(
                served_keys(cache_in, staleness_key@, *config, has_cooked, patchers@.take(i as int)),
            ),
            forall|k: int|
                0 <= k < out@.len() ==> cache_hit(
                    *cache,
                    staleness_key@,
                    *config,
                    (#[trigger] out@[k]).id@,
                ) && entry_matches(*cache, out@[k].id@, out@[k].ops),
            forall|j: int|
                0 <= j < i && #[trigger] enabled_at(*config, patchers@, j) && (has_cooked
                    || cache_hit(cache0, staleness_key@, *config, patchers@[j].spec_id())) ==> cache_hit(
                    *cache,
                    staleness_key@,
                    *config,
                    patchers@[j].spec_id(),
                ),
            forall|id: Seq<char>|
                #[trigger] cache_hit(cache0, staleness_key@, *config, id) ==> lookup(cache.entries@, id)
                    == lookup(cache0.entries@, id),
            !dirty ==> cache.entries@ == cache0.entries@,
            dirty ==> has_cooked,
            has_cooked ==> missing@.len() == 0,
            forall|k: int|
                0 <= k < out@.len() ==> served_from(
                    cache_in,
                    staleness_key@,
                    *config,
                    opt_cooked(cooked),
                    patchers@,
                    (#[trigger] out@[k]).id@,
                    ops_view(out@[k].ops),
                ),
            forall|x: Seq<char>|
                #[trigger] cache_hit(*cache, staleness_key@, *config, x) ==> (lookup(cache.entries@, x) matches Some(e)
                    && served_from(
                    cache_in,
                    staleness_key@,
                    *config,
                    opt_cooked(cooked),
                    patchers@,
                    x,
                    ops_view(e.ops),
                )),
            !has_cooked ==> missing@.map_values(|s: String| s@) == missing_ids(
                cache_in,
                staleness_key@,
                *config,
                patchers@.take(i as int),
            ),
        decreases patchers@.len() - i,
    {
        let p = &patchers[i];
        assert(patchers@.take(i + 1).drop_last() =~= patchers@.take(i as int));
        assert(patchers@.take(i + 1).last() == patchers@[i as int]);
        let ghost cache_before = *cache;
        let ghost out_before = out@;
        let ghost prev_served = served_keys(cache_in, staleness_key@, *config, has_cooked, patchers@.take(i as int));
        let ghost key_i = (patchers@[i as int].spec_priority(), patchers@[i as int].spec_id());
        assert(prev_served.push(key_i).drop_last() =~= prev_served);
        if enabled_in(config, p) {
            let id = p.id();
            let h = options_hash(config, id);
            let cached: Option<OpSet> = match cache.entries.get(id) {
                Some(e) => if str_eq(e.options_hash.as_str(), h.as_str()) {
                    Some(e.ops.copy_set())
                } else {
                    None
                },
                None => None,
            };
            assert(cached is Some <==> cache_hit(*cache, staleness_key@, *config, id@));
            assert(cached matches Some(o) ==> (lookup(cache.entries@, id@) matches Some(e) && ops_view(o)
                == ops_view(e.ops)));
            match cached {
                Some(ops) => {
                    proof {
                        assert(enabled_at(*config, patchers@, i as int));
                        assert(id@ == patchers@[i as int].spec_id());
                        if !has_cooked {
                            assert(cache.entries@ == cache0.entries@);
                            assert(cache_hit(cache0, staleness_key@, *config, id@));
                            assert(cache_hit(cache_in, staleness_key@, *config, id@));
                        }
                        assert(enabled_at(*config, patchers@, i as int) && (has_cooked || cache_hit(cache_in, staleness_key@, *config, patchers@[i as int].spec_id())));
                        assert(served_at(cache_in, staleness_key@, *config, has_cooked, patchers@, i as int));
                    }
                    assert(served_from(cache_in, staleness_key@, *config, opt_cooked(cooked), patchers@, id@, ops_view(ops)));
                    let item = PatcherOps { id: id.to_owned(), priority: p.priority(), ops };
                    let ghost item_view = item;
                    insert_sorted(&mut out, item);
                    proof {
                        assert forall|k: int| 0 <= k < out@.len() implies served_from(
                            cache_in,
                            staleness_key@,
                            *config,
                            opt_cooked(cooked),
                            patchers@,
                            (#[trigger] out@[k]).id@,
                            ops_view(out@[k].ops),
                        ) by {
                            let j = choose|j: int|
                                (0 <= j < out_before.len() && #[trigger] out@[k] == out_before[j]) || out@[k]
                                    == item_view;
                        }
                        assert(served_at(cache_in, staleness_key@, *config, has_cooked, patchers@, i as int));
                        assert(served_keys(cache_in, staleness_key@, *config, has_cooked, patchers@.take(i + 1))
                            == prev_served.push(key_i));
                        assert(ops_keys(out@) == sort_keys(prev_served.push(key_i)));
                        assert forall|k: int| 0 <= k < out@.len() implies cache_hit(
                            *cache,
                            staleness_key@,
                            *config,
                            (#[trigger] out@[k]).id@,
                        ) && entry_matches(*cache, out@[k].id@, out@[k].ops) by {
                            let j = choose|j: int|
                                (0 <= j < out_before.len() && #[trigger] out@[k] == out_before[j]) || out@[k]
                                    == item_view;
                        }
                    }
                },
                None => {
                    proof {
                        if !has_cooked {
                            assert(!cache_hit(cache0, staleness_key@, *config, id@));
                        }
                        assert forall|k: int| 0 <= k < out@.len() implies (#[trigger] out@[k]).id@ != id@ by {}
                        if cache_hit(cache0, staleness_key@, *config, id@) {
                            assert(lookup(cache.entries@, id@) == lookup(cache0.entries@, id@));
                        }
                    }
                    match cooked {
                        None => {
                            assert(!served_at(cache_in, staleness_key@, *config, has_cooked, patchers@, i as int));
                            missing.push(id.to_owned());
                            proof {
                                assert(missing@.map_values(|s: String| s@) =~= missing_ids(
                                    cache_in,
                                    staleness_key@,
                                    *config,
                                    patchers@.take(i as int),
                                ).push(id@));
                            }
                        },
                        Some(c) => {
                            let pc = config.patcher_config(id);
                            match p.derive(c, &pc) {
                                Err(message) => {
                                    proof {
                                        assert(enabled_at(*config, patchers@, i as int));
                                        assert(id@ == patchers@[i as int].spec_id());
                                        if cache_hit(cache_in, staleness_key@, *config, id@) {
                                            assert(cache_hit(cache0, staleness_key@, *config, id@));
                                            assert(lookup(cache.entries@, id@) == lookup(cache0.entries@, id@));
                                        }
                                        assert(config_for(pc, *config, id@));
                                        assert(patchers@[i as int].spec_derive_ok(*c, pc, Err(message@)));
                                        assert(derived_at(cache_in, staleness_key@, *config, *c, patchers@, i as int, Err(message@)));
                                    }
                                    let rid = id.to_owned();
                                    assert(rid@ == patchers@[i as int].spec_id());
                                    assert(derived_at(*old(cache), staleness_key@, *config, *c, patchers@, i as int, Err(message@)));
                                    assert(exists|j: int| patchers@[j].spec_id() == rid@ && #[trigger] derived_at(
                                        *old(cache), staleness_key@, *config, *c, patchers@, j, Err(message@)));
                                    assert(!(forall|j: int, pc: PatcherConfig, m: Seq<char>|
                                        0 <= j < patchers@.len() && enabled_at(*config, patchers@, j) && !cache_hit(
                                            *old(cache), staleness_key@, *config, patchers@[j].spec_id(),
                                        ) && config_for(pc, *config, patchers@[j].spec_id()) ==> !#[trigger] patchers@[j].spec_derive_ok(
                                            *c, pc, Err(m))));
                                    let ghost mv = message@;
                                    assert(cooked matches Some(cc) && exists|j: int|
                                        patchers@[j].spec_id() == rid@ && #[trigger] derived_at(
                                            *old(cache), staleness_key@, *config, *cc, patchers@, j, Err(mv)));
                                    let failed = DeriveOpsError::PatcherFailed { id: rid, message };
                                    let res: Result<(Vec<PatcherOps>, bool), DeriveOpsError> = Err(failed);
                                    assert(res matches Err(DeriveOpsError::PatcherFailed { id, message }) && id@ == rid@);
                                    assert(res matches Err(DeriveOpsError::PatcherFailed { id, message }) && message@ == mv);
                                    assert(match res {
                                        Err(DeriveOpsError::PatcherFailed { id, message }) => cooked matches Some(c) && exists|j: int|
                                            patchers@[j].spec_id() == id@ && #[trigger] derived_at(
                                                *old(cache), staleness_key@, *config, *c, patchers@, j, Err(message@)),
                                        _ => true,
                                    });
                                    return res;
                                },
                                Ok(ops) => {
                                    proof {
                                        assert(enabled_at(*config, patchers@, i as int));
                                        assert(id@ == patchers@[i as int].spec_id());
                                        if cache_hit(cache_in, staleness_key@, *config, id@) {
                                            assert(cache_hit(cache0, staleness_key@, *config, id@));
                                            assert(lookup(cache.entries@, id@) == lookup(cache0.entries@, id@));
                                        }
                                        assert(config_for(pc, *config, id@));
                                        assert(patchers@[i as int].spec_derive_ok(*c, pc, Ok(ops_view(ops))));
                                        assert(derived_at(cache_in, staleness_key@, *config, *c, patchers@, i as int, Ok(ops_view(ops))));
                                        assert(served_from(cache_in, staleness_key@, *config, opt_cooked(cooked), patchers@, id@, ops_view(ops)));
                                    }
                                    let entry = CacheEntry { options_hash: h, ops: ops.copy_set() };
                                    let ghost entry_view = entry;
                                    cache.entries.insert(id, entry);
                                    proof {
                                        assert forall|x: Seq<char>|
                                            #[trigger] cache_hit(*cache, staleness_key@, *config, x) implies (lookup(
                                                cache.entries@,
                                                x,
                                            ) matches Some(e) && served_from(
                                                cache_in,
                                                staleness_key@,
                                                *config,
                                                opt_cooked(cooked),
                                                patchers@,
                                                x,
                                                ops_view(e.ops),
                                            )) by {
                                            if x != id@ {
                                                assert(lookup(cache.entries@, x) == lookup(cache_before.entries@, x));
                                                assert(cache_hit(cache_before, staleness_key@, *config, x));
                                            } else {
                                                assert(lookup(cache.entries@, x) == Some(entry_view));
                                            }
                                        }
                                    }
                                    dirty = true;
                                    let item = PatcherOps { id: id.to_owned(), priority: p.priority(), ops };
                                    let ghost item_view = item;
                                    insert_sorted(&mut out, item);
                                    proof {
                                        assert(served_at(cache_in, staleness_key@, *config, has_cooked, patchers@, i as int));
                                        assert(served_keys(cache_in, staleness_key@, *config, has_cooked, patchers@.take(i + 1))
                                            == prev_served.push(key_i));
                                        assert(ops_keys(out@) == sort_keys(prev_served.push(key_i)));
                                        assert(cache_hit(*cache, staleness_key@, *config, id@));
                                        assert forall|k: int| 0 <= k < out@.len() implies cache_hit(
                                            *cache,
                                            staleness_key@,
                                            *config,
                                            (#[trigger] out@[k]).id@,
                                        ) && entry_matches(*cache, out@[k].id@, out@[k].ops) by {
                                            let j = choose|j: int|
                                                (0 <= j < out_before.len() && #[trigger] out@[k] == out_before[j])
                                                    || out@[k] == item_view;
                                            if out@[k] != item_view {
                                                assert(out_before[j].id@ != id@);
                                                assert(cache_hit(cache_before, staleness_key@, *config, out_before[j].id@));
                                            }
                                        }
                                        assert forall|j: int|
                                            0 <= j < i + 1 && #[trigger] enabled_at(*config, patchers@, j) && (has_cooked
                                                || cache_hit(cache0, staleness_key@, *config, patchers@[j].spec_id()))
                                                implies cache_hit(*cache, staleness_key@, *config, patchers@[j].spec_id()) by {
                                            if patchers@[j].spec_id() != id@ && j < i {
                                                assert(cache_hit(cache_before, staleness_key@, *config, patchers@[j].spec_id()));
                                            }
                                        }
                                        assert forall|x: Seq<char>|
                                            #[trigger] cache_hit(cache0, staleness_key@, *config, x) implies lookup(
                                                cache.entries@,
                                                x,
                                            ) == lookup(cache0.entries@, x) by {
                                            if x != id@ {
                                                assert(lookup(cache_before.entries@, x) == lookup(cache0.entries@, x));
                                            }
                                        }
                                    }
                                },
                            }
                        },
                    }
                },
            }
        } else {
            assert(!served_at(cache_in, staleness_key@, *config, has_cooked, patchers@, i as int));
        }
        i = i + 1;
    }
    assert(patchers@.take(patchers@.len() as int) =~= patchers@);
    proof {
        lemma_missing_complete(cache_in, staleness_key@, *config, patchers@);
        if cache_in.staleness_key@ == staleness_key@ {
            assert(cache0.entries@ == cache_in.entries@);
        }
    }
    if missing.len() > 0 {
        return Err(DeriveOpsError::NeedsCookedData(DeriveError { missing }));
    }
    proof {
        assert forall|j: int|
            0 <= j < patchers@.len() && #[trigger] enabled_at(*config, patchers@, j) implies cache_hit(
            *cache,
            staleness_key@,
            *config,
            patchers@[j].spec_id(),
        ) by {
            if !has_cooked {
                lemma_missing_member(cache_in, staleness_key@, *config, patchers@, j);
            }
        }
        let ks = served_keys(*old(cache), staleness_key@, *config, cooked is Some, patchers@);
        lemma_apply_order(ks);
        assert forall|i: int, j: int| 0 <= i < j < out@.len() implies (#[trigger] out@[i]).priority <= (
        #[trigger] out@[j]).priority by {
            assert(ops_keys(out@)[i] == sort_keys(ks)[i]);
            assert(ops_keys(out@)[j] == sort_keys(ks)[j]);
        }
    }
    Ok((out, dirty))
}

/// No missing ids exactly when every enabled patcher is cached.
proof fn lemma_missing_complete(
    cache: OpsCache,
    key: Seq<char>,
    config: LangpatchConfig,
    ps: Seq<Box<dyn Patcher>>,
)
    ensures
        (missing_ids(cache, key, config, ps).len() == 0) == cache_complete_spec(cache, key, config, ps),
    decreases ps.len(),
{
    if ps.len() > 0 {
        let t = ps.drop_last();
        let n = ps.len() - 1;
        lemma_missing_complete(cache, key, config, t);
        assert forall|i: int| 0 <= i < t.len() implies enabled_at(config, t, i) == enabled_at(config, ps, i)
            && t[i].spec_id() == ps[i].spec_id() by {
            assert(t[i] == ps[i]);
        }
        if cache_complete_spec(cache, key, config, ps) {
            assert forall|i: int|
                0 <= i < t.len() && #[trigger] enabled_at(config, t, i) implies cache_hit(
                cache,
                key,
                config,
                t[i].spec_id(),
            ) by {
                assert(enabled_at(config, ps, i));
            }
            assert(cache_complete_spec(cache, key, config, t));
            assert(enabled_at(config, ps, n) ==> cache_hit(cache, key, config, ps[n].spec_id()));
        }
        if missing_ids(cache, key, config, ps).len() == 0 {
            assert(missing_ids(cache, key, config, t).len() == 0);
            assert forall|i: int|
                0 <= i < ps.len() && #[trigger] enabled_at(config, ps, i) implies cache_hit(
                cache,
                key,
                config,
                ps[i].spec_id(),
            ) by {
                if i < t.len() {
                    assert(enabled_at(config, t, i));
                }
            }
        }
    }
}

/// An enabled patcher not listed missing is cached.
proof fn lemma_missing_member(
    cache: OpsCache,
    key: Seq<char>,
    config: LangpatchConfig,
    ps: Seq<Box<dyn Patcher>>,
    j: int,
)
    requires
        0 <= j < ps.len(),
        enabled_at(config, ps, j),
        missing_ids(cache, key, config, ps).len() == 0,
    ensures
        cache_hit(cache, key, config, ps[j].spec_id()),
{
    lemma_missing_complete(cache, key, config, ps);
}

} // verus!
