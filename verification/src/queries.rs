//! The catalog query surface over [`CookedData`]: display names resolved
//! against the bundled locale (raw key as fallback), item search with
//! type filter, case-insensitive text match, deterministic order and
//! pagination, item details with the weapons-index join, manufacturers,
//! and item-type facets.

use vstd::prelude::*;

use crate::catalog::{
    ItemDetail, ItemPage, ItemQuery, ItemRow, ManufacturerRow, MissileEntry, ResourceLegality, ResourceRow,
    ShipWeaponEntry,
};
use crate::cooked::{
    CookedData, ItemRecord, JurisdictionRef, LegalityEntry, LocaleMap, ManufacturerRecord, ResourceRecord,
    resolved_text, strip_at, strip_at_spec,
};
use crate::sorting::{Keyed, keyed_views, sort_entries, sort_keyed};
use crate::text::{chars_of, contains_seq, str_contains, str_eq};

verus! {

// ── Names ───────────────────────────────────────────────────────────────────

/// What `str::to_lowercase` makes of `s`.
pub uninterp spec fn lowercase_of(s: Seq<char>) -> Seq<char>;

/// `str::to_lowercase`: the Unicode lowercase of `s`.
#[verifier::external_body]
pub(crate) fn lowercase(s: &str) -> (r: String)
    ensures
        r@ == lowercase_of(s@),
{
    s.to_lowercase()
}

/// A locale key's display text, falling back to the key with its `@`
/// stripped (better a key than a blank cell).
pub open spec fn resolve_or_key_spec(locale: LocaleMap, key: Seq<char>) -> Seq<char> {
    match resolved_text(locale, key) {
        Some(t) => t,
        None => strip_at_spec(key),
    }
}

/// An optional key resolved for display.
pub open spec fn resolve_opt(locale: LocaleMap, key: Option<String>) -> Option<Seq<char>> {
    match key {
        Some(k) => Some(resolve_or_key_spec(locale, k@)),
        None => None,
    }
}

pub open spec fn opt_view(o: Option<String>) -> Option<Seq<char>> {
    match o {
        Some(s) => Some(s@),
        None => None,
    }
}

impl CookedData {
    /// Resolve a locale key to display text, falling back to the raw key
    /// with its `@` stripped.
    pub fn resolve_or_key(&self, key: &str) -> (r: String)
        requires
            self.locale.entries.wf(),
        ensures
            r@ == resolve_or_key_spec(self.locale, key@),
    {
        match self.locale.resolve(key) {
            Some(v) => {
                let cs = chars_of(v.as_str());
                if cs.len() > 0 {
                    v.clone()
                } else {
                    strip_at(key)
                }
            },
            None => strip_at(key),
        }
    }

    fn resolve_opt_exec(&self, key: &Option<String>) -> (r: Option<String>)
        requires
            self.locale.entries.wf(),
        ensures
            opt_view(r) == resolve_opt(self.locale, *key),
    {
        match key {
            Some(k) => Some(self.resolve_or_key(k.as_str())),
            None => None,
        }
    }
}

// ── Counting ────────────────────────────────────────────────────────────────

/// How many records are real inventory items.
pub open spec fn inventory_count(items: Seq<ItemRecord>) -> nat
    decreases items.len(),
{
    if items.len() == 0 {
        0
    } else {
        inventory_count(items.drop_last()) + if items.last().is_inventory {
            1nat
        } else {
            0nat
        }
    }
}

impl CookedData {
    /// Number of real inventory items (the search corpus).
    pub fn item_count(&self) -> (n: usize)
        ensures
            n == match self.items {
                Some(v) => inventory_count(v@),
                None => 0,
            },
    {
        match &self.items {
            None => 0,
            Some(items) => {
                let mut n: usize = 0;
                let mut i: usize = 0;
                while i < items.len()
                    invariant
                        i <= items@.len(),
                        n == inventory_count(items@.take(i as int)),
                        n <= i,
                    decreases items@.len() - i,
                {
                    proof {
                        assert(items@.take(i + 1).drop_last() =~= items@.take(i as int));
                    }
                    if items[i].is_inventory {
                        n = n + 1;
                    }
                    i = i + 1;
                }
                assert(items@.take(items@.len() as int) =~= items@);
                n
            },
        }
    }
}

// ── Search ──────────────────────────────────────────────────────────────────

/// The display name of an item: its name key resolved (`None` without one).
pub open spec fn item_name(locale: LocaleMap, it: ItemRecord) -> Option<Seq<char>> {
    resolve_opt(locale, it.name_key)
}

/// An item is found by a query: an inventory item of the asked type with
/// a name, whose lowercased name or GUID holds the lowercased text (empty
/// text matches all).
pub open spec fn item_hit(locale: LocaleMap, q: ItemQuery, needle: Seq<char>, it: ItemRecord) -> bool {
    &&& it.is_inventory
    &&& match q.item_type {
        Some(t) => it.item_type@ == t@,
        None => true,
    }
    &&& match item_name(locale, it) {
        Some(n) => needle.len() == 0 || contains_seq(lowercase_of(n), needle) || contains_seq(
            lowercase_of(it.guid@),
            needle,
        ),
        None => false,
    }
}

/// The found items, each keyed by (lowercased name, GUID) with its
/// position, in record order.
pub open spec fn search_hits(locale: LocaleMap, q: ItemQuery, needle: Seq<char>, items: Seq<ItemRecord>) -> Seq<
    (int, Seq<char>, Seq<char>, int),
>
    decreases items.len(),
{
    if items.len() == 0 {
        Seq::empty()
    } else {
        let prev = search_hits(locale, q, needle, items.drop_last());
        let it = items.last();
        if item_hit(locale, q, needle, it) {
            prev.push((0, lowercase_of(item_name(locale, it).unwrap()), it.guid@, items.len() - 1))
        } else {
            prev
        }
    }
}

/// How many rows a page at `offset` of at most `limit` rows holds.
pub open spec fn window_len(total: int, offset: int, limit: int) -> int {
    if offset >= total {
        0
    } else if limit < total - offset {
        limit
    } else {
        total - offset
    }
}

/// `r` is the search row of item `it`.
pub open spec fn row_of(r: ItemRow, locale: LocaleMap, it: ItemRecord) -> bool {
    &&& r.guid@ == it.guid@
    &&& Some(r.name@) == item_name(locale, it)
    &&& r.item_type@ == it.item_type@
    &&& r.item_sub_type@ == it.item_sub_type@
    &&& r.size == it.size
    &&& r.grade == it.grade
}

/// Every search hit stands for a found item.
proof fn lemma_hits_found(locale: LocaleMap, q: ItemQuery, needle: Seq<char>, items: Seq<ItemRecord>)
    ensures
        forall|k: int|
            0 <= k < search_hits(locale, q, needle, items).len() ==> {
                let h = #[trigger] search_hits(locale, q, needle, items)[k];
                0 <= h.3 < items.len() && item_hit(locale, q, needle, items[h.3])
            },
    decreases items.len(),
{
    if items.len() > 0 {
        lemma_hits_found(locale, q, needle, items.drop_last());
        let prev = search_hits(locale, q, needle, items.drop_last());
        assert forall|k: int| 0 <= k < search_hits(locale, q, needle, items).len() implies {
            let h = #[trigger] search_hits(locale, q, needle, items)[k];
            0 <= h.3 < items.len() && item_hit(locale, q, needle, items[h.3])
        } by {
            if k < prev.len() {
                assert(search_hits(locale, q, needle, items)[k] == prev[k]);
                assert(items.drop_last()[prev[k].3] == items[prev[k].3]);
            }
        }
    }
}

impl CookedData {
    /// Search inventory items. Results sort by lowercased name, then GUID,
    /// so pagination is deterministic across calls; `total` counts every
    /// match, `rows` is the page at `offset` of at most `limit` rows.
    pub fn search_items(&self, query: &ItemQuery) -> (page: ItemPage)
        requires
            self.locale.entries.wf(),
        ensures
            match self.items {
                None => page.total == 0 && page.rows@.len() == 0,
                Some(items) => {
                    let hits = sort_keyed(
                        search_hits(self.locale, *query, lowercase_of(query.text@), items@),
                    );
                    &&& page.total == hits.len()
                    &&& page.rows@.len() == window_len(hits.len() as int, query.offset as int, query.limit as int)
                    &&& forall|i: int|
                        0 <= i < page.rows@.len() ==> row_of(
                            #[trigger] page.rows@[i],
                            self.locale,
                            items@[hits[query.offset + i].3],
                        )
                },
            },
    {
        let items = match &self.items {
            None => {
                return ItemPage { total: 0, rows: Vec::new() };
            },
            Some(items) => items,
        };
        let needle = lowercase(query.text.as_str());
        let ghost nv = lowercase_of(query.text@);
        let empty_needle = chars_of(needle.as_str()).len() == 0;
        let mut keyed: Vec<Keyed> = Vec::new();
        let mut j: usize = 0;
        while j < items.len()
            invariant
                j <= items@.len(),
                self.locale.entries.wf(),
                needle@ == nv,
                empty_needle == (nv.len() == 0),
                keyed_views(keyed@) == search_hits(self.locale, *query, nv, items@.take(j as int)),
            decreases items@.len() - j,
        {
            let it = &items[j];
            proof {
                assert(items@.take(j + 1).drop_last() =~= items@.take(j as int));
                assert(items@.take(j + 1).last() == *it);
            }
            let type_ok = match &query.item_type {
                Some(t) => str_eq(it.item_type.as_str(), t.as_str()),
                None => true,
            };
            if it.is_inventory && type_ok {
                match &it.name_key {
                    Some(k) => {
                        let name = self.resolve_or_key(k.as_str());
                        let lname = lowercase(name.as_str());
                        let found = empty_needle || str_contains(lname.as_str(), needle.as_str()) || {
                            let lguid = lowercase(it.guid.as_str());
                            str_contains(lguid.as_str(), needle.as_str())
                        };
                        if found {
                            let ghost before = keyed@;
                            let e = Keyed { rank: 0, primary: lname, secondary: it.guid.clone(), index: j };
                            let ghost ev = e;
                            keyed.push(e);
                            assert(keyed_views(keyed@) =~= keyed_views(before).push(
                                crate::sorting::keyed_view(ev),
                            ));
                        }
                    },
                    None => {},
                }
            }
            j = j + 1;
        }
        assert(items@.take(items@.len() as int) =~= items@);
        let sorted = sort_entries(keyed);
        let ghost hits = keyed_views(sorted@);
        proof {
            let raw = search_hits(self.locale, *query, nv, items@);
            lemma_hits_found(self.locale, *query, nv, items@);
            crate::sorting::lemma_sort_members(raw);
            assert forall|k: int| 0 <= k < hits.len() implies 0 <= #[trigger] hits[k].3 < items@.len()
                && item_hit(self.locale, *query, nv, items@[hits[k].3]) by {
                let m = choose|m: int| 0 <= m < raw.len() && raw[m] == hits[k];
                assert(raw[m] == search_hits(self.locale, *query, nv, items@)[m]);
            }
        }
        let total = sorted.len();
        let offset = query.offset;
        let end = if offset >= total {
            offset
        } else if query.limit < total - offset {
            offset + query.limit
        } else {
            total
        };
        let mut rows: Vec<ItemRow> = Vec::new();
        let mut i: usize = offset;
        while i < end
            invariant
                offset <= i <= end,
                end <= total || end == offset,
                total == sorted@.len(),
                hits == keyed_views(sorted@),
                forall|k: int|
                    0 <= k < hits.len() ==> 0 <= #[trigger] hits[k].3 < items@.len() && item_hit(
                        self.locale,
                        *query,
                        nv,
                        items@[hits[k].3],
                    ),
                self.locale.entries.wf(),
                rows@.len() == i - offset,
                forall|k: int|
                    0 <= k < rows@.len() ==> row_of(#[trigger] rows@[k], self.locale, items@[hits[offset + k].3]),
            decreases end - i,
        {
            assert(i < total);
            assert(hits[i as int] == crate::sorting::keyed_view(sorted@[i as int]));
            assert(hits[i as int].3 < items@.len());
            let idx = sorted[i].index;
            let it = &items[idx];
            let name = match &it.name_key {
                Some(k) => self.resolve_or_key(k.as_str()),
                None => it.guid.clone(),
            };
            rows.push(
                ItemRow {
                    guid: it.guid.clone(),
                    name,
                    item_type: it.item_type.clone(),
                    item_sub_type: it.item_sub_type.clone(),
                    size: it.size,
                    grade: it.grade,
                },
            );
            i = i + 1;
        }
        ItemPage { total, rows }
    }
}

} // verus!

verus! {

// ── Details ─────────────────────────────────────────────────────────────────

/// `i` is the first record with GUID `g`.
pub open spec fn is_first_guid(items: Seq<ItemRecord>, g: Seq<char>, i: int) -> bool {
    0 <= i < items.len() && items[i].guid@ == g && forall|j: int| 0 <= j < i ==> items[j].guid@ != g
}

/// The position of the record with GUID `g`, if any.
pub open spec fn guid_pos(items: Seq<ItemRecord>, g: Seq<char>) -> Option<int> {
    if exists|i: int| is_first_guid(items, g, i) {
        Some(choose|i: int| is_first_guid(items, g, i))
    } else {
        None
    }
}

pub open spec fn is_first_weapon(ws: Seq<ShipWeaponEntry>, g: Seq<char>, i: int) -> bool {
    0 <= i < ws.len() && ws[i].guid@ == g && forall|j: int| 0 <= j < i ==> ws[j].guid@ != g
}

/// The first ship weapon with GUID `g`.
pub open spec fn weapon_for(ws: Seq<ShipWeaponEntry>, g: Seq<char>) -> Option<ShipWeaponEntry> {
    if exists|i: int| is_first_weapon(ws, g, i) {
        Some(ws[choose|i: int| is_first_weapon(ws, g, i)])
    } else {
        None
    }
}

pub open spec fn is_first_missile(ms: Seq<MissileEntry>, g: Seq<char>, i: int) -> bool {
    0 <= i < ms.len() && ms[i].guid@ == g && forall|j: int| 0 <= j < i ==> ms[j].guid@ != g
}

/// The first missile with GUID `g`.
pub open spec fn missile_for(ms: Seq<MissileEntry>, g: Seq<char>) -> Option<MissileEntry> {
    if exists|i: int| is_first_missile(ms, g, i) {
        Some(ms[choose|i: int| is_first_missile(ms, g, i)])
    } else {
        None
    }
}

/// `d` is the detail view of item `it`.
pub open spec fn detail_of(d: ItemDetail, c: CookedData, it: ItemRecord) -> bool {
    &&& d.guid@ == it.guid@
    &&& d.name@ == match item_name(c.locale, it) {
        Some(n) => n,
        None => it.guid@,
    }
    &&& opt_view(d.short_name) == resolve_opt(c.locale, it.short_name_key)
    &&& opt_view(d.description) == resolve_opt(c.locale, it.desc_key)
    &&& d.item_type@ == it.item_type@
    &&& d.item_sub_type@ == it.item_sub_type@
    &&& d.size == it.size
    &&& d.grade == it.grade
    &&& opt_view(d.record_path) == opt_view(it.record_path)
    &&& d.ship_weapon == weapon_for(c.weapons.ship_weapons@, it.guid@)
    &&& d.missile == missile_for(c.weapons.missiles@, it.guid@)
}

impl ShipWeaponEntry {
    pub fn copy(&self) -> (r: ShipWeaponEntry)
        ensures
            r == *self,
    {
        ShipWeaponEntry {
            guid: self.guid.clone(),
            name_key: match &self.name_key {
                Some(k) => Some(k.clone()),
                None => None,
            },
            desc_key: match &self.desc_key {
                Some(k) => Some(k.clone()),
                None => None,
            },
            size: self.size,
        }
    }
}

impl MissileEntry {
    pub fn copy(&self) -> (r: MissileEntry)
        ensures
            r == *self,
    {
        MissileEntry {
            guid: self.guid.clone(),
            name_key: match &self.name_key {
                Some(k) => Some(k.clone()),
                None => None,
            },
            desc_key: match &self.desc_key {
                Some(k) => Some(k.clone()),
                None => None,
            },
            size: self.size,
            tracking_signal: match &self.tracking_signal {
                Some(k) => Some(k.clone()),
                None => None,
            },
            is_torpedo: self.is_torpedo,
        }
    }
}

fn copy_opt_text(o: &Option<String>) -> (r: Option<String>)
    ensures
        opt_view(r) == opt_view(*o),
{
    match o {
        Some(s) => Some(s.clone()),
        None => None,
    }
}

impl CookedData {
    fn weapon_with_guid(&self, g: &str) -> (r: Option<ShipWeaponEntry>)
        ensures
            r == weapon_for(self.weapons.ship_weapons@, g@),
    {
        let ws = &self.weapons.ship_weapons;
        let mut i: usize = 0;
        while i < ws.len()
            invariant
                i <= ws@.len(),
                ws@ == self.weapons.ship_weapons@,
                forall|j: int| 0 <= j < i ==> ws@[j].guid@ != g@,
            decreases ws@.len() - i,
        {
            if str_eq(ws[i].guid.as_str(), g) {
                let w = ws[i].copy();
                proof {
                    assert(is_first_weapon(ws@, g@, i as int));
                    let c = choose|k: int| is_first_weapon(ws@, g@, k);
                    assert(c == i) by {
                        if c < i {
                        } else if c > i {
                            assert(ws@[i as int].guid@ == g@);
                        }
                    }
                    assert(w == ws@[i as int]);
                    assert(weapon_for(ws@, g@) == Some(ws@[i as int]));
                }
                return Some(w);
            }
            i = i + 1;
        }
        assert(!exists|k: int| is_first_weapon(ws@, g@, k));
        None
    }

    fn missile_with_guid(&self, g: &str) -> (r: Option<MissileEntry>)
        ensures
            r == missile_for(self.weapons.missiles@, g@),
    {
        let ms = &self.weapons.missiles;
        let mut i: usize = 0;
        while i < ms.len()
            invariant
                i <= ms@.len(),
                ms@ == self.weapons.missiles@,
                forall|j: int| 0 <= j < i ==> ms@[j].guid@ != g@,
            decreases ms@.len() - i,
        {
            if str_eq(ms[i].guid.as_str(), g) {
                let m = ms[i].copy();
                proof {
                    assert(is_first_missile(ms@, g@, i as int));
                    let c = choose|k: int| is_first_missile(ms@, g@, k);
                    assert(c == i) by {
                        if c < i {
                        } else if c > i {
                            assert(ms@[i as int].guid@ == g@);
                        }
                    }
                }
                return Some(m);
            }
            i = i + 1;
        }
        assert(!exists|k: int| is_first_missile(ms@, g@, k));
        None
    }

    /// Full detail for one item; `None` for an unknown GUID.
    pub fn item_detail(&self, guid: &str) -> (r: Option<ItemDetail>)
        requires
            self.locale.entries.wf(),
        ensures
            match r {
                None => match self.items {
                    Some(items) => guid_pos(items@, guid@) is None,
                    None => true,
                },
                Some(d) => self.items matches Some(items) && guid_pos(items@, guid@) matches Some(i) && detail_of(
                    d,
                    *self,
                    items@[i],
                ),
            },
    {
        let items = match &self.items {
            None => {
                return None;
            },
            Some(items) => items,
        };
        let mut i: usize = 0;
        while i < items.len()
            invariant
                i <= items@.len(),
                self.locale.entries.wf(),
                self.items == Some(*items),
                forall|j: int| 0 <= j < i ==> items@[j].guid@ != guid@,
            decreases items@.len() - i,
        {
            if str_eq(items[i].guid.as_str(), guid) {
                proof {
                    assert(is_first_guid(items@, guid@, i as int));
                    let c = choose|k: int| is_first_guid(items@, guid@, k);
                    assert(c == i) by {
                        if c > i {
                            assert(items@[i as int].guid@ == guid@);
                        }
                    }
                }
                let it = &items[i];
                let name = match &it.name_key {
                    Some(k) => self.resolve_or_key(k.as_str()),
                    None => it.guid.clone(),
                };
                let g = it.guid.clone();
                return Some(
                    ItemDetail {
                        guid: it.guid.clone(),
                        name,
                        short_name: self.resolve_opt_exec(&it.short_name_key),
                        description: self.resolve_opt_exec(&it.desc_key),
                        item_type: it.item_type.clone(),
                        item_sub_type: it.item_sub_type.clone(),
                        size: it.size,
                        grade: it.grade,
                        record_path: copy_opt_text(&it.record_path),
                        ship_weapon: self.weapon_with_guid(g.as_str()),
                        missile: self.missile_with_guid(g.as_str()),
                    },
                );
            }
            i = i + 1;
        }
        None
    }
}

} // verus!

verus! {

// ── Manufacturers ───────────────────────────────────────────────────────────

/// Each manufacturer keyed by its code (stable among equal codes).
pub open spec fn manufacturer_keys(ms: Seq<ManufacturerRecord>) -> Seq<(int, Seq<char>, Seq<char>, int)> {
    Seq::new(ms.len(), |j: int| (0int, ms[j].code@, Seq::<char>::empty(), j))
}

/// `r` is the row of manufacturer `m`.
pub open spec fn manufacturer_row_of(r: ManufacturerRow, locale: LocaleMap, m: ManufacturerRecord) -> bool {
    &&& r.guid@ == m.guid@
    &&& r.code@ == m.code@
    &&& opt_view(r.name) == resolve_opt(locale, m.name_key)
}

impl CookedData {
    /// Every manufacturer, sorted by code.
    pub fn manufacturers(&self) -> (rows: Vec<ManufacturerRow>)
        requires
            self.locale.entries.wf(),
        ensures
            match self.manufacturers {
                None => rows@.len() == 0,
                Some(ms) => {
                    let s = sort_keyed(manufacturer_keys(ms@));
                    &&& rows@.len() == s.len()
                    &&& forall|i: int|
                        0 <= i < rows@.len() ==> manufacturer_row_of(#[trigger] rows@[i], self.locale, ms@[s[i].3])
                },
            },
    {
        let ms = match &self.manufacturers {
            None => {
                return Vec::new();
            },
            Some(ms) => ms,
        };
        let ghost mk = manufacturer_keys(ms@);
        let mut keyed: Vec<Keyed> = Vec::new();
        let mut j: usize = 0;
        while j < ms.len()
            invariant
                j <= ms@.len(),
                mk == manufacturer_keys(ms@),
                keyed_views(keyed@) == mk.take(j as int),
            decreases ms@.len() - j,
        {
            let ghost before = keyed@;
            let e = Keyed { rank: 0, primary: ms[j].code.clone(), secondary: String::new(), index: j };
            let ghost ev = e;
            keyed.push(e);
            proof {
                assert(keyed@ =~= before.push(ev));
                assert(crate::sorting::keyed_view(ev) == mk[j as int]);
                assert(keyed_views(keyed@) =~= keyed_views(before).push(crate::sorting::keyed_view(ev)));
                assert(keyed_views(keyed@) =~= mk.take(j + 1));
            }
            j = j + 1;
        }
        assert(mk.take(ms@.len() as int) =~= mk);
        let sorted = sort_entries(keyed);
        let ghost s = keyed_views(sorted@);
        proof {
            crate::sorting::lemma_sort_members(mk);
            assert forall|k: int| 0 <= k < s.len() implies 0 <= #[trigger] s[k].3 < ms@.len() by {
                let m = choose|m: int| 0 <= m < mk.len() && mk[m] == s[k];
            }
        }
        let mut rows: Vec<ManufacturerRow> = Vec::new();
        let mut i: usize = 0;
        while i < sorted.len()
            invariant
                i <= sorted@.len(),
                s == keyed_views(sorted@),
                forall|k: int| 0 <= k < s.len() ==> 0 <= #[trigger] s[k].3 < ms@.len(),
                self.locale.entries.wf(),
                rows@.len() == i,
                forall|k: int| 0 <= k < i ==> manufacturer_row_of(#[trigger] rows@[k], self.locale, ms@[s[k].3]),
            decreases sorted@.len() - i,
        {
            assert(s[i as int] == crate::sorting::keyed_view(sorted@[i as int]));
            assert(s[i as int].3 < ms@.len());
            let m = &ms[sorted[i].index];
            rows.push(
                ManufacturerRow {
                    guid: m.guid.clone(),
                    code: m.code.clone(),
                    name: self.resolve_opt_exec(&m.name_key),
                },
            );
            i = i + 1;
        }
        rows
    }
}

// ── Item-type facets ────────────────────────────────────────────────────────

/// How many inventory items have type `t`.
pub open spec fn type_count(items: Seq<ItemRecord>, t: Seq<char>) -> nat
    decreases items.len(),
{
    if items.len() == 0 {
        0
    } else {
        type_count(items.drop_last(), t) + if items.last().is_inventory && items.last().item_type@ == t {
            1nat
        } else {
            0nat
        }
    }
}

/// The distinct inventory item types, in first-seen order.
pub open spec fn facet_types(items: Seq<ItemRecord>) -> Seq<Seq<char>>
    decreases items.len(),
{
    if items.len() == 0 {
        Seq::empty()
    } else {
        let prev = facet_types(items.drop_last());
        if items.last().is_inventory && !prev.contains(items.last().item_type@) {
            prev.push(items.last().item_type@)
        } else {
            prev
        }
    }
}

/// Each facet keyed by descending count, then name.
pub open spec fn facet_keys(items: Seq<ItemRecord>) -> Seq<(int, Seq<char>, Seq<char>, int)> {
    let ts = facet_types(items);
    Seq::new(ts.len(), |j: int| (items.len() - type_count(items, ts[j]), ts[j], Seq::<char>::empty(), j))
}

proof fn lemma_count_bounded(items: Seq<ItemRecord>, t: Seq<char>)
    ensures
        type_count(items, t) <= items.len(),
        type_count(items, t) > 0 ==> facet_types(items).contains(t),
    decreases items.len(),
{
    if items.len() > 0 {
        lemma_count_bounded(items.drop_last(), t);
        let prev = facet_types(items.drop_last());
        if type_count(items.drop_last(), t) > 0 {
            let k = choose|k: int| 0 <= k < prev.len() && prev[k] == t;
            assert(facet_types(items)[k] == t);
        } else if items.last().is_inventory && items.last().item_type@ == t {
            if prev.contains(t) {
                let k = choose|k: int| 0 <= k < prev.len() && prev[k] == t;
                assert(facet_types(items)[k] == t);
            } else {
                assert(facet_types(items)[prev.len() as int] == t);
            }
        }
    }
}

proof fn lemma_types_distinct(items: Seq<ItemRecord>)
    ensures
        forall|a: int, b: int|
            0 <= a < b < facet_types(items).len() ==> facet_types(items)[a] != facet_types(items)[b],
    decreases items.len(),
{
    if items.len() > 0 {
        lemma_types_distinct(items.drop_last());
        let prev = facet_types(items.drop_last());
        assert forall|a: int, b: int|
            0 <= a < b < facet_types(items).len() implies facet_types(items)[a] != facet_types(items)[b] by {
            if b == prev.len() {
                assert(facet_types(items)[a] == prev[a]);
            } else {
                assert(facet_types(items)[a] == prev[a]);
                assert(facet_types(items)[b] == prev[b]);
            }
        }
    }
}

impl CookedData {
    /// Distinct item types over inventory items, with counts, sorted by
    /// count descending (then name).
    pub fn item_type_facets(&self) -> (r: Vec<(String, usize)>)
        ensures
            match self.items {
                None => r@.len() == 0,
                Some(items) => {
                    let ts = facet_types(items@);
                    let s = sort_keyed(facet_keys(items@));
                    &&& r@.len() == s.len()
                    &&& forall|i: int|
                        0 <= i < r@.len() ==> (#[trigger] r@[i]).0@ == ts[s[i].3] && r@[i].1 == type_count(
                            items@,
                            ts[s[i].3],
                        )
                },
            },
    {
        let items = match &self.items {
            None => {
                return Vec::new();
            },
            Some(items) => items,
        };
        let mut types: Vec<String> = Vec::new();
        let mut counts: Vec<usize> = Vec::new();
        let mut i: usize = 0;
        while i < items.len()
            invariant
                i <= items@.len(),
                types@.len() == counts@.len(),
                types@.map_values(|t: String| t@) == facet_types(items@.take(i as int)),
                forall|k: int|
                    0 <= k < counts@.len() ==> #[trigger] counts@[k] == type_count(items@.take(i as int), types@[k]@)
                        && counts@[k] <= i,
            decreases items@.len() - i,
        {
            let ghost pre = items@.take(i as int);
            let ghost post = items@.take(i + 1);
            proof {
                assert(post.drop_last() =~= pre);
                assert(post.last() == items@[i as int]);
                lemma_types_distinct(pre);
            }
            let it = &items[i];
            if it.is_inventory {
                let mut k: usize = 0;
                while k < types.len() && !str_eq(types[k].as_str(), it.item_type.as_str())
                    invariant
                        k <= types@.len(),
                        forall|q: int| 0 <= q < k ==> types@[q]@ != it.item_type@,
                    decreases types@.len() - k,
                {
                    k = k + 1;
                }
                let ghost tv = types@.map_values(|t: String| t@);
                if k < types.len() {
                    let c = counts[k];
                    counts.set(k, c + 1);
                    proof {
                        assert(tv[k as int] == it.item_type@);
                        assert(facet_types(pre).contains(it.item_type@));
                        assert(types@.map_values(|t: String| t@) == facet_types(post));
                        assert forall|q: int| 0 <= q < counts@.len() implies #[trigger] counts@[q] == type_count(
                            post,
                            types@[q]@,
                        ) && counts@[q] <= i + 1 by {
                            if q != k {
                                assert(tv[q] != tv[k as int]);
                            }
                        }
                    }
                } else {
                    proof {
                        lemma_count_bounded(pre, it.item_type@);
                        if facet_types(pre).contains(it.item_type@) {
                            let q = choose|q: int| 0 <= q < tv.len() && tv[q] == it.item_type@;
                            assert(types@[q]@ == it.item_type@);
                        }
                    }
                    let ghost t0 = types@;
                    let nt = it.item_type.clone();
                    let ghost ntv = nt;
                    types.push(nt);
                    counts.push(1);
                    proof {
                        assert(types@ =~= t0.push(ntv));
                        assert(types@.map_values(|t: String| t@) =~= facet_types(pre).push(it.item_type@));
                        assert forall|q: int| 0 <= q < counts@.len() implies #[trigger] counts@[q] == type_count(
                            post,
                            types@[q]@,
                        ) && counts@[q] <= i + 1 by {
                            if q < t0.len() {
                                assert(types@[q] == t0[q]);
                                assert(t0[q]@ != it.item_type@);
                            }
                        }
                    }
                }
            } else {
                proof {
                    assert(types@.map_values(|t: String| t@) == facet_types(post));
                    assert forall|q: int| 0 <= q < counts@.len() implies #[trigger] counts@[q] == type_count(
                        post,
                        types@[q]@,
                    ) && counts@[q] <= i + 1 by {}
                }
            }
            i = i + 1;
        }
        assert(items@.take(items@.len() as int) =~= items@);
        let ghost ts = facet_types(items@);
        let ghost fk = facet_keys(items@);
        let n = items.len();
        let mut keyed: Vec<Keyed> = Vec::new();
        let mut j: usize = 0;
        while j < types.len()
            invariant
                j <= types@.len(),
                types@.len() == counts@.len(),
                n == items@.len(),
                types@.map_values(|t: String| t@) == ts,
                forall|k: int| 0 <= k < counts@.len() ==> #[trigger] counts@[k] == type_count(items@, types@[k]@) && counts@[k] <= n,
                fk == facet_keys(items@),
                ts == facet_types(items@),
                keyed_views(keyed@) == fk.take(j as int),
            decreases types@.len() - j,
        {
            let ghost before = keyed@;
            assert(counts@[j as int] <= n);
            let rank = (n - counts[j]) as u64;
            let e = Keyed { rank, primary: types[j].clone(), secondary: String::new(), index: j };
            let ghost ev = e;
            keyed.push(e);
            proof {
                assert(ts[j as int] == types@[j as int]@);
                assert(counts@[j as int] == type_count(items@, ts[j as int]));
                assert(rank as int == n - counts@[j as int]);
                assert(keyed@ =~= before.push(ev));
                assert(crate::sorting::keyed_view(ev) == fk[j as int]);
                assert(keyed_views(keyed@) =~= keyed_views(before).push(crate::sorting::keyed_view(ev)));
                assert(keyed_views(keyed@) =~= fk.take(j + 1));
            }
            j = j + 1;
        }
        assert(fk.take(types@.len() as int) =~= fk);
        let sorted = sort_entries(keyed);
        let ghost s = keyed_views(sorted@);
        proof {
            crate::sorting::lemma_sort_members(fk);
            assert forall|k: int| 0 <= k < s.len() implies 0 <= #[trigger] s[k].3 < types@.len() by {
                let m = choose|m: int| 0 <= m < fk.len() && fk[m] == s[k];
            }
        }
        let mut r: Vec<(String, usize)> = Vec::new();
        let mut i: usize = 0;
        while i < sorted.len()
            invariant
                i <= sorted@.len(),
                s == keyed_views(sorted@),
                types@.len() == counts@.len(),
                types@.map_values(|t: String| t@) == ts,
                forall|k: int| 0 <= k < counts@.len() ==> #[trigger] counts@[k] == type_count(items@, types@[k]@),
                forall|k: int| 0 <= k < s.len() ==> 0 <= #[trigger] s[k].3 < types@.len(),
                r@.len() == i,
                forall|k: int| 0 <= k < i ==> (#[trigger] r@[k]).0@ == ts[s[k].3] && r@[k].1 == type_count(items@, ts[s[k].3]),
            decreases sorted@.len() - i,
        {
            assert(s[i as int] == crate::sorting::keyed_view(sorted@[i as int]));
            assert(s[i as int].3 < types@.len());
            let idx = sorted[i].index;
            assert(ts[idx as int] == types@[idx as int]@);
            r.push((types[idx].clone(), counts[idx]));
            i = i + 1;
        }
        r
    }
}

} // verus!

verus! {

// ── Resources ───────────────────────────────────────────────────────────────

/// `i` is the first resource with GUID `g`.
pub open spec fn is_first_resource(rs: Seq<ResourceRecord>, g: Seq<char>, i: int) -> bool {
    0 <= i < rs.len() && rs[i].guid@ == g && forall|j: int| 0 <= j < i ==> rs[j].guid@ != g
}

/// The resource with GUID `g`, if any.
pub open spec fn resource_with(rs: Seq<ResourceRecord>, g: Seq<char>) -> Option<ResourceRecord> {
    if exists|i: int| is_first_resource(rs, g, i) {
        Some(rs[choose|i: int| is_first_resource(rs, g, i)])
    } else {
        None
    }
}

/// The last legality entry for resource GUID `g`.
pub open spec fn legality_for(es: Seq<LegalityEntry>, g: Seq<char>) -> Option<LegalityEntry>
    decreases es.len(),
{
    if es.len() == 0 {
        None
    } else if es.last().resource_guid@ == g {
        Some(es.last())
    } else {
        legality_for(es.drop_last(), g)
    }
}

/// A jurisdiction's display name: its name key resolved, else its record
/// name.
pub open spec fn jurisdiction_name(locale: LocaleMap, j: JurisdictionRef) -> Seq<char> {
    match j.name_key {
        Some(k) => if resolve_or_key_spec(locale, k@).len() > 0 {
            resolve_or_key_spec(locale, k@)
        } else {
            j.record_name@
        },
        None => j.record_name@,
    }
}

/// A resolved text, `None` when empty.
pub open spec fn non_empty(t: Seq<char>) -> Option<Seq<char>> {
    if t.len() > 0 {
        Some(t)
    } else {
        None
    }
}

/// `r` is the row of resource `rs[j]`.
pub open spec fn resource_row_of(r: ResourceRow, c: CookedData, rs: Seq<ResourceRecord>, j: int) -> bool {
    let rec = rs[j];
    &&& r.record == j
    &&& r.guid@ == rec.guid@
    &&& r.name@ == resolve_or_key_spec(c.locale, rec.name_key@)
    &&& opt_view(r.description) == non_empty(resolve_or_key_spec(c.locale, rec.description_key@))
    &&& opt_view(r.refined_into) == match rec.refined_version {
        Some(g) => match resource_with(rs, g@) {
            Some(next) => Some(resolve_or_key_spec(c.locale, next.name_key@)),
            None => None,
        },
        None => None,
    }
    &&& match legality_for(c.legality@, rec.guid@) {
        None => r.legality is None,
        Some(e) => r.legality matches Some(l) && l.kind == e.kind && l.jurisdictions@.len() == e.jurisdictions@.len()
            && forall|k: int|
            0 <= k < l.jurisdictions@.len() ==> (#[trigger] l.jurisdictions@[k])@ == jurisdiction_name(
                c.locale,
                e.jurisdictions@[k],
            ),
    }
}

/// Each resource keyed by its lowercased name (stable among equal names).
pub open spec fn resource_keys(locale: LocaleMap, rs: Seq<ResourceRecord>) -> Seq<(int, Seq<char>, Seq<char>, int)> {
    Seq::new(rs.len(), |j: int| (0int, lowercase_of(resolve_or_key_spec(locale, rs[j].name_key@)), Seq::<char>::empty(), j))
}

impl CookedData {
    /// Number of resource records.
    pub fn resource_count(&self) -> (n: usize)
        ensures
            n == match self.resources {
                Some(v) => v@.len(),
                None => 0,
            },
    {
        match &self.resources {
            Some(v) => v.len(),
            None => 0,
        }
    }

    fn resource_named(&self, g: &str) -> (r: Option<String>)
        requires
            self.locale.entries.wf(),
            self.resources is Some,
        ensures
            opt_view(r) == match resource_with(self.resources.unwrap()@, g@) {
                Some(next) => Some(resolve_or_key_spec(self.locale, next.name_key@)),
                None => None,
            },
    {
        let rs = match &self.resources {
            Some(rs) => rs,
            None => {
                return None;
            },
        };
        let mut i: usize = 0;
        while i < rs.len()
            invariant
                i <= rs@.len(),
                self.resources == Some(*rs),
                self.locale.entries.wf(),
                forall|j: int| 0 <= j < i ==> rs@[j].guid@ != g@,
            decreases rs@.len() - i,
        {
            if str_eq(rs[i].guid.as_str(), g) {
                proof {
                    assert(is_first_resource(rs@, g@, i as int));
                    let c = choose|k: int| is_first_resource(rs@, g@, k);
                    assert(c == i) by {
                        if c > i {
                            assert(rs@[i as int].guid@ == g@);
                        }
                    }
                }
                return Some(self.resolve_or_key(rs[i].name_key.as_str()));
            }
            i = i + 1;
        }
        assert(!exists|k: int| is_first_resource(rs@, g@, k));
        None
    }

    fn legality_row(&self, g: &str) -> (r: Option<ResourceLegality>)
        requires
            self.locale.entries.wf(),
        ensures
            match legality_for(self.legality@, g@) {
                None => r is None,
                Some(e) => r matches Some(l) && l.kind == e.kind && l.jurisdictions@.len() == e.jurisdictions@.len()
                    && forall|k: int|
                    0 <= k < l.jurisdictions@.len() ==> (#[trigger] l.jurisdictions@[k])@ == jurisdiction_name(
                        self.locale,
                        e.jurisdictions@[k],
                    ),
            },
    {
        let es = &self.legality;
        let mut i: usize = es.len();
        assert(es@.take(i as int) =~= es@);
        while i > 0
            invariant
                i <= es@.len(),
                es@ == self.legality@,
                self.locale.entries.wf(),
                legality_for(es@, g@) == legality_for(es@.take(i as int), g@),
            decreases i,
        {
            proof {
                assert(es@.take(i as int).drop_last() =~= es@.take(i - 1));
                assert(es@.take(i as int).last() == es@[i - 1]);
            }
            if str_eq(es[i - 1].resource_guid.as_str(), g) {
                let e = &es[i - 1];
                let mut names: Vec<String> = Vec::new();
                let mut k: usize = 0;
                while k < e.jurisdictions.len()
                    invariant
                        k <= e.jurisdictions@.len(),
                        self.locale.entries.wf(),
                        names@.len() == k,
                        forall|q: int|
                            0 <= q < k ==> (#[trigger] names@[q])@ == jurisdiction_name(self.locale, e.jurisdictions@[q]),
                    decreases e.jurisdictions@.len() - k,
                {
                    let j = &e.jurisdictions[k];
                    let name = match &j.name_key {
                        Some(key) => {
                            let t = self.resolve_or_key(key.as_str());
                            if chars_of(t.as_str()).len() > 0 {
                                t
                            } else {
                                j.record_name.clone()
                            }
                        },
                        None => j.record_name.clone(),
                    };
                    names.push(name);
                    k = k + 1;
                }
                return Some(ResourceLegality { kind: e.kind, jurisdictions: names });
            }
            i = i - 1;
        }
        None
    }

    /// Every resource, sorted by lowercased resolved name.
    pub fn resources(&self) -> (rows: Vec<ResourceRow>)
        requires
            self.locale.entries.wf(),
        ensures
            match self.resources {
                None => rows@.len() == 0,
                Some(rs) => {
                    let s = sort_keyed(resource_keys(self.locale, rs@));
                    &&& rows@.len() == s.len()
                    &&& forall|i: int| 0 <= i < rows@.len() ==> resource_row_of(#[trigger] rows@[i], *self, rs@, s[i].3)
                },
            },
    {
        let rs = match &self.resources {
            None => {
                return Vec::new();
            },
            Some(rs) => rs,
        };
        let ghost rk = resource_keys(self.locale, rs@);
        let mut keyed: Vec<Keyed> = Vec::new();
        let mut j: usize = 0;
        while j < rs.len()
            invariant
                j <= rs@.len(),
                self.locale.entries.wf(),
                rk == resource_keys(self.locale, rs@),
                keyed_views(keyed@) == rk.take(j as int),
            decreases rs@.len() - j,
        {
            let name = self.resolve_or_key(rs[j].name_key.as_str());
            let ghost before = keyed@;
            let e = Keyed { rank: 0, primary: lowercase(name.as_str()), secondary: String::new(), index: j };
            let ghost ev = e;
            keyed.push(e);
            proof {
                assert(keyed@ =~= before.push(ev));
                assert(crate::sorting::keyed_view(ev) == rk[j as int]);
                assert(keyed_views(keyed@) =~= keyed_views(before).push(crate::sorting::keyed_view(ev)));
                assert(keyed_views(keyed@) =~= rk.take(j + 1));
            }
            j = j + 1;
        }
        assert(rk.take(rs@.len() as int) =~= rk);
        let sorted = sort_entries(keyed);
        let ghost s = keyed_views(sorted@);
        proof {
            crate::sorting::lemma_sort_members(rk);
            assert forall|k: int| 0 <= k < s.len() implies 0 <= #[trigger] s[k].3 < rs@.len() by {
                let m = choose|m: int| 0 <= m < rk.len() && rk[m] == s[k];
            }
        }
        let mut rows: Vec<ResourceRow> = Vec::new();
        let mut i: usize = 0;
        while i < sorted.len()
            invariant
                i <= sorted@.len(),
                s == keyed_views(sorted@),
                self.resources == Some(*rs),
                forall|k: int| 0 <= k < s.len() ==> 0 <= #[trigger] s[k].3 < rs@.len(),
                self.locale.entries.wf(),
                rows@.len() == i,
                forall|k: int| 0 <= k < i ==> resource_row_of(#[trigger] rows@[k], *self, rs@, s[k].3),
            decreases sorted@.len() - i,
        {
            assert(s[i as int] == crate::sorting::keyed_view(sorted@[i as int]));
            assert(s[i as int].3 < rs@.len());
            let idx = sorted[i].index;
            let r = &rs[idx];
            let d = self.resolve_or_key(r.description_key.as_str());
            let description = if chars_of(d.as_str()).len() > 0 {
                Some(d)
            } else {
                None
            };
            let refined_into = match &r.refined_version {
                Some(g) => self.resource_named(g.as_str()),
                None => None,
            };
            rows.push(
                ResourceRow {
                    guid: r.guid.clone(),
                    name: self.resolve_or_key(r.name_key.as_str()),
                    description,
                    refined_into,
                    legality: self.legality_row(r.guid.as_str()),
                    record: idx,
                },
            );
            i = i + 1;
        }
        rows
    }
}

} // verus!
