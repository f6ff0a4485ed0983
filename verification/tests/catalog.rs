use starlume::catalog::{ItemQuery, ShipWeaponEntry};
use starlume::cooked::{
    CookedData, ItemRecord, JurisdictionRef, LegalityEntry, LegalityKind, LocaleMap, ManufacturerRecord,
    ResourceRecord,
};

fn guid(b: u8) -> String {
    let h = format!("{b:02x}");
    format!("{0}{0}{0}{0}-{0}{0}-{0}{0}-{0}{0}-{0}{0}{0}{0}{0}{0}", h)
}

fn item(g: u8, name_key: &str, item_type: &str, inventory: bool) -> ItemRecord {
    ItemRecord {
        guid: guid(g),
        item_type: item_type.into(),
        item_sub_type: "UNDEFINED".into(),
        name_key: Some(name_key.into()),
        short_name_key: None,
        desc_key: None,
        size: 2,
        grade: 1,
        is_inventory: inventory,
        record_path: None,
    }
}

/// A small fake bundle: two weapons, one armor, one NOITEM marker.
fn fake_cooked() -> CookedData {
    let mut laser = item(1, "@item_NameLaserAlpha", "WeaponPersonal", true);
    laser.record_path = Some("libs/foundry/records/weapons/laser_alpha.xml".into());
    let items = vec![
        laser,
        item(2, "@item_NameLaserBeta", "WeaponPersonal", true),
        item(3, "@item_NameHelmet", "Char_Armor_Helmet", true),
        item(4, "@noitem_marker", "NOITEM_Player", false),
    ];
    let mut cooked = CookedData::new();
    cooked.locale.set("item_NameLaserAlpha", "Laser Alpha");
    cooked.locale.set("item_NameLaserBeta", "Laser Beta");
    cooked.locale.set("item_NameHelmet", "Sturdy Helmet");
    cooked.items = Some(items);
    cooked.weapons.ship_weapons.push(ShipWeaponEntry {
        guid: guid(6),
        name_key: Some("@item_NameGATS_BallisticGatling_S1".into()),
        desc_key: Some("@item_DescGATS_BallisticGatling_S1".into()),
        size: 1,
    });
    cooked
}

fn query(text: &str, item_type: Option<&str>, offset: usize, limit: usize) -> ItemQuery {
    ItemQuery {
        text: text.into(),
        item_type: item_type.map(str::to_string),
        offset,
        limit,
    }
}

#[test]
fn search_filters_sorts_and_paginates() {
    let cooked = fake_cooked();
    assert_eq!(cooked.item_count(), 3); // NOITEM excluded

    // Empty text matches all inventory items, sorted by name.
    let all = cooked.search_items(&query("", None, 0, 10));
    assert_eq!(all.total, 3);
    assert_eq!(all.rows[0].name, "Laser Alpha");
    assert_eq!(all.rows[2].name, "Sturdy Helmet");

    // Substring match is case-insensitive.
    let lasers = cooked.search_items(&query("laser", None, 0, 10));
    assert_eq!(lasers.total, 2);

    // Type filter.
    let armor = cooked.search_items(&query("", Some("Char_Armor_Helmet"), 0, 10));
    assert_eq!(armor.total, 1);
    assert_eq!(armor.rows[0].name, "Sturdy Helmet");

    // Pagination: total stays full, rows window moves.
    let page2 = cooked.search_items(&query("", None, 2, 10));
    assert_eq!(page2.total, 3);
    assert_eq!(page2.rows.len(), 1);
}

#[test]
fn unresolvable_name_falls_back_to_stripped_key() {
    let mut cooked = fake_cooked();
    cooked.locale = LocaleMap::new(); // wipe the locale
    let all = cooked.search_items(&query("item_namehelmet", None, 0, 10));
    assert_eq!(all.total, 1);
    assert_eq!(all.rows[0].name, "item_NameHelmet"); // @ stripped
}

#[test]
fn item_detail_includes_record_path() {
    let cooked = fake_cooked();
    let detail = cooked.item_detail(&guid(1)).unwrap();
    assert_eq!(
        detail.record_path.as_deref(),
        Some("libs/foundry/records/weapons/laser_alpha.xml")
    );
    assert_eq!(detail.item_type, "WeaponPersonal");
    assert_eq!(detail.name, "Laser Alpha");
    assert!(detail.ship_weapon.is_none());
    // Unknown / garbage GUIDs are None, not errors.
    assert!(cooked.item_detail(&guid(9)).is_none());
    assert!(cooked.item_detail("not-a-guid").is_none());
}

#[test]
fn item_type_facets_count_inventory_items_only() {
    let cooked = fake_cooked();
    let facets = cooked.item_type_facets();
    assert_eq!(
        facets,
        vec![
            ("WeaponPersonal".to_string(), 2),
            ("Char_Armor_Helmet".to_string(), 1)
        ]
    );
}

#[test]
fn search_pages_are_bounded_and_guid_searchable() {
    let cooked = fake_cooked();
    let first = cooked.search_items(&query("", None, 0, 2));
    assert_eq!(first.total, 3);
    assert_eq!(first.rows.len(), 2);
    assert_eq!(first.rows[1].name, "Laser Beta");
    let past = cooked.search_items(&query("", None, 5, 2));
    assert_eq!(past.total, 3);
    assert!(past.rows.is_empty());
    let by_guid = cooked.search_items(&query(&guid(3).to_uppercase(), None, 0, 10));
    assert_eq!(by_guid.total, 1);
    assert_eq!(by_guid.rows[0].guid, guid(3));
    let none = CookedData::new().search_items(&query("", None, 0, 10));
    assert_eq!(none.total, 0);
}

#[test]
fn detail_joins_weapons_index() {
    let mut cooked = fake_cooked();
    if let Some(items) = cooked.items.as_mut() {
        items.push(item(6, "@item_NameGATS_BallisticGatling_S1", "WeaponGun", true));
    }
    let detail = cooked.item_detail(&guid(6)).unwrap();
    assert_eq!(detail.ship_weapon.unwrap().size, 1);
    assert_eq!(detail.name, "item_NameGATS_BallisticGatling_S1");
}

#[test]
fn manufacturers_sorted_by_code() {
    let mut cooked = fake_cooked();
    cooked.locale.set("manufacturer_NameAEGS", "Aegis Dynamics");
    cooked.manufacturers = Some(vec![
        ManufacturerRecord { guid: guid(7), code: "RSI".into(), name_key: None },
        ManufacturerRecord {
            guid: guid(8),
            code: "AEGS".into(),
            name_key: Some("@manufacturer_NameAEGS".into()),
        },
    ]);
    let rows = cooked.manufacturers();
    assert_eq!(rows.len(), 2);
    assert_eq!(rows[0].code, "AEGS");
    assert_eq!(rows[0].name.as_deref(), Some("Aegis Dynamics"));
    assert_eq!(rows[1].code, "RSI");
    assert!(rows[1].name.is_none());
    assert!(CookedData::new().manufacturers().is_empty());
}

#[test]
fn resources_join_names_refinement_and_legality() {
    let mut cooked = fake_cooked();
    cooked.locale.set("items_commodities_widow", "WiDoW");
    cooked.locale.set("items_commodities_ore", "agricium (Ore)");
    cooked.locale.set("items_commodities_agricium", "Agricium");
    cooked.locale.set("jurisdiction_stanton", "Stanton");
    cooked.resources = Some(vec![
        ResourceRecord {
            guid: guid(5),
            name_key: "@items_commodities_widow".into(),
            description_key: "@items_commodities_widow_desc".into(),
            refined_version: None,
        },
        ResourceRecord {
            guid: guid(6),
            name_key: "@items_commodities_ore".into(),
            description_key: "@".into(),
            refined_version: Some(guid(7)),
        },
        ResourceRecord {
            guid: guid(7),
            name_key: "@items_commodities_agricium".into(),
            description_key: "@".into(),
            refined_version: Some(guid(9)),
        },
    ]);
    cooked.legality = vec![LegalityEntry {
        resource_guid: guid(5),
        record_name: "WiDoW".into(),
        name_key: "@items_commodities_widow".into(),
        kind: LegalityKind::Drug,
        jurisdictions: vec![
            JurisdictionRef { name_key: Some("@jurisdiction_stanton".into()), record_name: "Stanton".into() },
            JurisdictionRef { name_key: None, record_name: "Pyro".into() },
        ],
    }];
    assert_eq!(cooked.resource_count(), 3);
    let rows = cooked.resources();
    let names: Vec<&str> = rows.iter().map(|r| r.name.as_str()).collect();
    assert_eq!(names, vec!["Agricium", "agricium (Ore)", "WiDoW"]);
    assert_eq!(rows[1].refined_into.as_deref(), Some("Agricium"));
    assert_eq!(rows[1].record, 1);
    assert!(rows[1].description.is_none());
    assert!(rows[0].refined_into.is_none());
    let widow = &rows[2];
    assert_eq!(widow.description.as_deref(), Some("items_commodities_widow_desc"));
    let legality = widow.legality.as_ref().unwrap();
    assert_eq!(legality.kind, LegalityKind::Drug);
    assert_eq!(legality.jurisdictions, vec!["Stanton".to_string(), "Pyro".to_string()]);
    assert!(rows[0].legality.is_none());
}
