//! The cooked game data the patchers derive from — the plain-value part of
//! the per-build data bundle: the parsed base `global.ini`, the component
//! item index, the legality index, the weapons index and the manufacturer
//! catalog.

use vstd::prelude::*;

use crate::catalog::{MissileEntry, ShipWeaponEntry};
use crate::strmap::{StrMap, lookup_text};
use crate::text::chars_of;

verus! {

/// `k` without one leading `@`.
pub open spec fn strip_at_spec(k: Seq<char>) -> Seq<char> {
    if k.len() > 0 && k[0] == '@' {
        k.drop_first()
    } else {
        k
    }
}

/// Strip the `@` locale-reference prefix.
pub fn strip_at(key: &str) -> (r: String)
    ensures
        r@ == strip_at_spec(key@),
{
    let v = chars_of(key);
    if v.len() > 0 && v[0] == '@' {
        crate::text::string_of_range(&v, 1, v.len())
    } else {
        key.to_owned()
    }
}

/// Parsed `global.ini`: bare key → value. Keys resolve with or without
/// the leading `@`.
pub struct LocaleMap {
    pub entries: StrMap<String>,
}

impl LocaleMap {
    pub fn new() -> (r: LocaleMap)
        ensures
            r.entries.wf(),
            r.entries@.len() == 0,
    {
        LocaleMap { entries: StrMap::new() }
    }

    /// Store `value` under `key` (its `@` stripped).
    pub fn set(&mut self, key: &str, value: &str)
        requires
            old(self).entries.wf(),
        ensures
            final(self).entries.wf(),
            lookup_text(final(self).entries@, strip_at_spec(key@)) == Some(value@),
            forall|k: Seq<char>|
                k != strip_at_spec(key@) ==> #[trigger] lookup_text(final(self).entries@, k)
                    == lookup_text(old(self).entries@, k),
    {
        let k = strip_at(key);
        self.entries.insert(k.as_str(), value.to_owned());
        proof {
            assert forall|k2: Seq<char>| k2 != strip_at_spec(key@) implies #[trigger] lookup_text(
                self.entries@,
                k2,
            ) == lookup_text(old(self).entries@, k2) by {}
        }
    }

    /// The value under exactly `key`.
    pub fn get(&self, key: &str) -> (r: Option<&String>)
        requires
            self.entries.wf(),
        ensures
            match r {
                Some(v) => lookup_text(self.entries@, key@) == Some(v@),
                None => lookup_text(self.entries@, key@) is None,
            },
    {
        self.entries.get(key)
    }

    /// The value under `key`, with or without its `@`.
    pub fn resolve(&self, key: &str) -> (r: Option<&String>)
        requires
            self.entries.wf(),
        ensures
            match r {
                Some(v) => lookup_text(self.entries@, strip_at_spec(key@)) == Some(v@),
                None => lookup_text(self.entries@, strip_at_spec(key@)) is None,
            },
    {
        let k = strip_at(key);
        self.entries.get(k.as_str())
    }
}

/// The resolved, non-empty text of `key` (`@` optional), if any.
pub open spec fn resolved_text(locale: LocaleMap, key: Seq<char>) -> Option<Seq<char>> {
    match lookup_text(locale.entries@, strip_at_spec(key)) {
        Some(v) => if v.len() > 0 {
            Some(v)
        } else {
            None
        },
        None => None,
    }
}

/// Why a commodity is illegal.
#[derive(Debug, Clone, Copy, PartialEq, Eq, Structural)]
pub enum LegalityKind {
    /// Controlled substance.
    Drug,
    /// Prohibited good.
    Contraband,
}

/// One jurisdiction that outlaws a commodity.
#[derive(Debug, Clone, PartialEq, Eq)]
pub struct JurisdictionRef {
    /// Raw locale key of the jurisdiction name (`@`-prefixed as authored);
    /// `None` when the record carries an empty key.
    pub name_key: Option<String>,
    /// Record name — stable fallback label.
    pub record_name: String,
}

/// One illegal commodity with everywhere it's outlawed.
#[derive(Debug, Clone, PartialEq, Eq)]
pub struct LegalityEntry {
    /// Resource record GUID, hex-string form.
    pub resource_guid: String,
    /// Record name (e.g. `"WiDoW"`).
    pub record_name: String,
    /// Raw locale key of the commodity name (`@`-prefixed as authored); its
    /// `_desc` sibling is the description key.
    pub name_key: String,
    pub kind: LegalityKind,
    /// Jurisdictions outlawing this commodity, sorted by record name.
    pub jurisdictions: Vec<JurisdictionRef>,
}

/// The item-index facts the catalog and the component-grades patcher read.
#[derive(Debug, Clone, PartialEq, Eq)]
pub struct ItemRecord {
    /// Record GUID, canonical text form.
    pub guid: String,
    /// Item type as the game data spells it (`"Cooler"`, `"Shield"`, …).
    pub item_type: String,
    pub item_sub_type: String,
    /// Raw locale key of the display name.
    pub name_key: Option<String>,
    /// Raw locale key of the short name.
    pub short_name_key: Option<String>,
    /// Raw locale key of the description.
    pub desc_key: Option<String>,
    pub size: i32,
    /// Numeric grade: 1 = A, 2 = B, 3 = C, anything else D.
    pub grade: i32,
    /// A real inventory item (the search corpus), not a placeholder record.
    pub is_inventory: bool,
    /// Record path, when known.
    pub record_path: Option<String>,
}

/// A resource record: GUID, raw name and description keys, and the GUID of
/// the resource it refines into.
#[derive(Debug, Clone, PartialEq, Eq)]
pub struct ResourceRecord {
    pub guid: String,
    pub name_key: String,
    pub description_key: String,
    pub refined_version: Option<String>,
}

/// A manufacturer record: GUID, code and raw name key.
#[derive(Debug, Clone, PartialEq, Eq)]
pub struct ManufacturerRecord {
    pub guid: String,
    pub code: String,
    pub name_key: Option<String>,
}

/// The weapons index: ship weapons and missiles with their loc keys and
/// sizes, plus the combat-stat blocks rendered (from the cooked float
/// statistics) for each description key's size-matched pool members.
pub struct WeaponsIndex {
    pub ship_weapons: Vec<ShipWeaponEntry>,
    pub missiles: Vec<MissileEntry>,
    /// Ship-weapon stat block per description key; empty or absent when
    /// there is nothing to show.
    pub ship_stat_blocks: StrMap<String>,
    /// Missile/torpedo stat block per description key; empty or absent
    /// when there is nothing to show.
    pub missile_stat_blocks: StrMap<String>,
}

impl WeaponsIndex {
    /// No weapons.
    pub fn new() -> (r: WeaponsIndex)
        ensures
            r.ship_weapons@.len() == 0,
            r.missiles@.len() == 0,
            r.ship_stat_blocks.wf(),
            r.ship_stat_blocks@.len() == 0,
            r.missile_stat_blocks.wf(),
            r.missile_stat_blocks@.len() == 0,
    {
        WeaponsIndex {
            ship_weapons: Vec::new(),
            missiles: Vec::new(),
            ship_stat_blocks: StrMap::new(),
            missile_stat_blocks: StrMap::new(),
        }
    }
}

/// The cooked data a patcher derives from.
pub struct CookedData {
    /// Parsed `english/global.ini`.
    pub locale: LocaleMap,
    /// The item index, `None` when the build's item index is unavailable.
    pub items: Option<Vec<ItemRecord>>,
    /// Per-commodity legality rows, sorted as cooked.
    pub legality: Vec<LegalityEntry>,
    /// Resource records, `None` when the build's index is unavailable.
    pub resources: Option<Vec<ResourceRecord>>,
    /// Manufacturer records, `None` when the build's index is unavailable.
    pub manufacturers: Option<Vec<ManufacturerRecord>>,
    /// The weapons index.
    pub weapons: WeaponsIndex,
}

impl CookedData {
    /// Internal consistency: the locale and the stat-block maps are in key
    /// order.
    pub open spec fn wf(&self) -> bool {
        &&& self.locale.entries.wf()
        &&& self.weapons.ship_stat_blocks.wf()
        &&& self.weapons.missile_stat_blocks.wf()
    }

    /// Nothing cooked: empty locale, no items, no legality rows.
    pub fn new() -> (r: CookedData)
        ensures
            r.locale.entries.wf(),
            r.locale.entries@.len() == 0,
            r.items is None,
            r.legality@.len() == 0,
            r.manufacturers is None,
            r.resources is None,
            r.weapons.ship_weapons@.len() == 0,
            r.weapons.missiles@.len() == 0,
            r.weapons.ship_stat_blocks@.len() == 0,
            r.weapons.missile_stat_blocks@.len() == 0,
            r.wf(),
    {
        CookedData {
            locale: LocaleMap::new(),
            items: None,
            legality: Vec::new(),
            manufacturers: None,
            resources: None,
            weapons: WeaponsIndex::new(),
        }
    }
}

} // verus!
