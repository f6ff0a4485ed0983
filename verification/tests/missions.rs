use starlume::catalog::CrimestatRisk;
use starlume::views::crimestat_label;
use starlume::patchers::mission_titles::{BlueprintState, TriState};
use starlume::patchers::missions::{
    blueprint_block, encounter_block, mission_info_block, render_encounters, rep_line, scrip_line, uec_line, variant_diff_lines, BlueprintPoolFacts,
    DescOptions, MissionEncounter, MissionFacts, MissionWave, PayoutFacts, PoolFacts, ScripFacts,
    ShipSlot,
};

fn base_entry() -> MissionFacts {
    MissionFacts {
        cooldown_line: None,
        reputation: Vec::new(),
        scrip: Vec::new(),
        payout: PayoutFacts { calculated: false, fixed: None, estimate: None },
        blueprint_rewards: Vec::new(),
        shareable: true,
        once_only: false,
        illegal: false,
        encounters: Vec::new(),
    }
}

fn consistent_pool() -> PoolFacts {
    PoolFacts {
        blueprint_state: BlueprintState::Absent,
        shareable: TriState::Unanimous(true),
        once_only: TriState::Unanimous(false),
        illegal: TriState::Unanimous(false),
        uec_consistent: true,
        scrip_consistent: true,
        rep_consistent: true,
        cooldowns_consistent: true,
        encounters_consistent: true,
    }
}

fn all_blocks() -> DescOptions {
    DescOptions {
        blueprint_list: true,
        mission_info: true,
        ship_encounters: true,
        cargo_info: true,
        region_info: true,
    }
}

#[test]
fn uec_line_prefers_fixed_then_estimate() {
    let mut m = base_entry();
    m.payout.fixed = Some(1234);
    assert_eq!(uec_line(&m).as_deref(), Some("UEC: 1234"));
    m.payout.fixed = None;
    m.payout.calculated = true;
    m.payout.estimate = Some(9800);
    assert_eq!(uec_line(&m).as_deref(), Some("UEC: ~9800"));
    m.payout.estimate = None;
    assert_eq!(uec_line(&m), None);
}

#[test]
fn uec_estimate_needs_a_calculated_payout() {
    let mut m = base_entry();
    m.payout.estimate = Some(500);
    assert_eq!(uec_line(&m), None);
    m.payout.fixed = Some(0);
    m.payout.calculated = true;
    assert_eq!(uec_line(&m).as_deref(), Some("UEC: ~500"));
}

#[test]
fn rep_line_sums_positive_amounts() {
    let mut m = base_entry();
    m.reputation = vec![Some(100), Some(-5), None, Some(20)];
    assert_eq!(rep_line(&m).as_deref(), Some("Rep: 120 XP"));
    m.reputation = vec![Some(0), None, Some(-3)];
    assert_eq!(rep_line(&m), None);
}

#[test]
fn scrip_line_groups_by_currency_in_name_order() {
    let mut m = base_entry();
    m.scrip = vec![
        ScripFacts { name: Some("MG".to_string()), amount: 5 },
        ScripFacts { name: None, amount: 3 },
        ScripFacts { name: Some("Council".to_string()), amount: 2 },
        ScripFacts { name: Some("MG".to_string()), amount: 4 },
        ScripFacts { name: Some("X".to_string()), amount: -1 },
    ];
    assert_eq!(scrip_line(&m).as_deref(), Some("Scrip: 3 scrip, 2 Council, 9 MG"));
}

#[test]
fn scrip_line_single_currency_and_none() {
    let mut m = base_entry();
    m.scrip = vec![ScripFacts { name: Some("MG".to_string()), amount: 5 }];
    assert_eq!(scrip_line(&m).as_deref(), Some("Scrip: 5 MG"));
    m.scrip = vec![ScripFacts { name: Some("MG".to_string()), amount: 0 }];
    assert_eq!(scrip_line(&m), None);
}

#[test]
fn variant_lines_empty_for_a_consistent_pool() {
    let mut m = base_entry();
    m.payout.fixed = Some(1000);
    assert!(variant_diff_lines(&consistent_pool(), &m, &Vec::new(), all_blocks()).is_empty());
}

#[test]
fn variant_lines_show_mixed_info_with_fallbacks() {
    let mut facts = consistent_pool();
    facts.cooldowns_consistent = false;
    facts.rep_consistent = false;
    facts.scrip_consistent = false;
    facts.uec_consistent = false;
    let mut m = base_entry();
    m.payout.fixed = Some(2000);
    assert_eq!(
        variant_diff_lines(&facts, &m, &Vec::new(), all_blocks()),
        vec!["No cooldown", "No rep reward", "No scrip", "UEC: 2000"]
    );
    m.cooldown_line = Some("Cooldown: 30min".to_string());
    m.payout.fixed = None;
    let mut opts = all_blocks();
    assert_eq!(
        variant_diff_lines(&facts, &m, &Vec::new(), opts)[3],
        "UEC: calculated".to_string()
    );
    opts.mission_info = false;
    assert!(variant_diff_lines(&facts, &m, &Vec::new(), opts).is_empty());
}

#[test]
fn variant_lines_list_blueprints_sorted_case_insensitively() {
    let mut facts = consistent_pool();
    facts.blueprint_state = BlueprintState::AllDifferentPools;
    let mut m = base_entry();
    m.blueprint_rewards = vec![
        BlueprintPoolFacts {
            chance_percent: Some(25),
            names: vec![
                Some("beta".to_string()),
                None,
                Some("Alpha".to_string()),
                Some("gamma".to_string()),
            ],
        },
        BlueprintPoolFacts { chance_percent: None, names: vec![None] },
    ];
    assert_eq!(
        variant_diff_lines(&facts, &m, &Vec::new(), all_blocks()),
        vec![
            "Blueprints (25% chance):",
            "- Alpha",
            "- beta",
            "- gamma",
            "Blueprints: (pool empty)",
        ]
    );
    m.blueprint_rewards = Vec::new();
    facts.blueprint_state = BlueprintState::MixedPresence;
    assert_eq!(variant_diff_lines(&facts, &m, &Vec::new(), all_blocks()), vec!["No blueprint"]);
    facts.blueprint_state = BlueprintState::AllSamePool;
    assert!(variant_diff_lines(&facts, &m, &Vec::new(), all_blocks()).is_empty());
}

fn ambush() -> MissionEncounter {
    MissionEncounter {
        label: "AmbushTarget".to_string(),
        difficulty: Some("Hard".to_string()),
        waves: vec![MissionWave {
            name: "Wave1".to_string(),
            ships: vec![ShipSlot {
                count_min: 1,
                count_max: 2,
                ships: vec!["Anvil Hornet".to_string(), "Drake Cutlass Black".to_string()],
                factions: vec!["Pirates".to_string()],
            }],
            cargo: vec!["SalvageCrate".to_string()],
        }],
    }
}

fn prefixes() -> Vec<String> {
    vec!["Anvil ".to_string(), "Drake ".to_string()]
}

#[test]
fn render_encounters_lists_waves_slots_and_cargo() {
    let r = render_encounters(&vec![ambush()], &prefixes(), true);
    assert_eq!(
        r.body,
        "<EM3>Ambush Target</EM3>\\n- 1-2x Hornet, Cutlass Black (Pirates)\\nCargo: Salvage Crate"
    );
    assert_eq!(r.ship_range, (1, 2));
    assert_eq!(r.combat_class.as_deref(), Some("Hard"));
    let without_cargo = render_encounters(&vec![ambush()], &prefixes(), false);
    assert!(!without_cargo.body.contains("Cargo"));
}

#[test]
fn render_encounters_sums_largest_waves_and_drops_mixed_classes() {
    let mut second = ambush();
    second.difficulty = Some("Easy".to_string());
    second.label = String::new();
    second.waves = vec![
        MissionWave {
            name: String::new(),
            ships: vec![ShipSlot { count_min: 2, count_max: 3, ships: Vec::new(), factions: Vec::new() }],
            cargo: Vec::new(),
        },
        MissionWave {
            name: "FinalPush".to_string(),
            ships: vec![
                ShipSlot { count_min: 1, count_max: 1, ships: Vec::new(), factions: Vec::new() },
                ShipSlot { count_min: -4, count_max: 4, ships: Vec::new(), factions: Vec::new() },
            ],
            cargo: Vec::new(),
        },
    ];
    let r = render_encounters(&vec![ambush(), second], &prefixes(), false);
    // Second encounter: waves span 2-3 and 1-5, so its range is 2-5.
    assert_eq!(r.ship_range, (3, 7));
    assert_eq!(r.combat_class, None);
    assert_eq!(
        r.body,
        "<EM3>Ambush Target</EM3>\\n- 1-2x Hornet, Cutlass Black (Pirates)\\n<EM3>Wave 1</EM3>\\n- 2-3 ships\\n<EM3>Final Push</EM3>\\n- 1 ship\\n- 0-4 ships"
    );
}

#[test]
fn variant_lines_show_mixed_flags_and_encounters() {
    let mut facts = consistent_pool();
    facts.shareable = TriState::Mixed;
    facts.once_only = TriState::Mixed;
    facts.illegal = TriState::Mixed;
    facts.encounters_consistent = false;
    let mut m = base_entry();
    m.shareable = false;
    m.once_only = true;
    m.encounters = vec![ambush()];
    assert_eq!(
        variant_diff_lines(&facts, &m, &prefixes(), all_blocks()),
        vec![
            "Solo only",
            "One-time only",
            "Encounters · 1-2 ships · Hard:\\n  <EM3>Ambush Target</EM3>\\n  - 1-2x Hornet, Cutlass Black (Pirates)\\n  Cargo: Salvage Crate",
        ]
    );
    m.encounters = Vec::new();
    assert_eq!(variant_diff_lines(&facts, &m, &Vec::new(), all_blocks()), vec!["Solo only", "One-time only"]);
}

#[test]
fn encounter_block_heads_the_rendered_body() {
    let mut m = base_entry();
    assert_eq!(encounter_block(&m, &prefixes(), false), None);
    m.encounters = vec![ambush()];
    assert_eq!(
        encounter_block(&m, &prefixes(), false).as_deref(),
        Some("<EM4>Encounters · 1-2 ships · Hard</EM4>\\n<EM3>Ambush Target</EM3>\\n- 1-2x Hornet, Cutlass Black (Pirates)")
    );
}

#[test]
fn mission_info_block_gates_each_line() {
    let mut m = base_entry();
    m.cooldown_line = Some("Cooldown: 30min".to_string());
    m.scrip = vec![ScripFacts { name: Some("MG".to_string()), amount: 5 }];
    m.payout.fixed = Some(5000);
    assert_eq!(
        mission_info_block(&m, true, true, true, true).as_deref(),
        Some("<EM4>Mission Info</EM4>\\nCooldown: 30min\\nScrip: 5 MG\\nUEC: 5000")
    );
    assert_eq!(
        mission_info_block(&m, false, true, true, false).as_deref(),
        Some("<EM4>Mission Info</EM4>\\nScrip: 5 MG")
    );
    assert_eq!(mission_info_block(&m, false, true, false, false), None);
}

#[test]
fn blueprint_block_lists_names_alphabetically() {
    let bp = BlueprintPoolFacts {
        chance_percent: Some(40),
        names: vec![Some("zeta".to_string()), None, Some("Alpha".to_string())],
    };
    assert_eq!(
        blueprint_block(&bp),
        "<EM4>Potential Blueprints</EM4> (40% chance)\\n- Alpha\\n- zeta"
    );
    let certain = BlueprintPoolFacts { chance_percent: None, names: Vec::new() };
    assert_eq!(blueprint_block(&certain), "<EM4>Potential Blueprints</EM4>");
}

#[test]
fn crimestat_labels_are_the_wire_names() {
    assert_eq!(crimestat_label(CrimestatRisk::Clear), "none");
    assert_eq!(crimestat_label(CrimestatRisk::Moderate), "moderate");
    assert_eq!(crimestat_label(CrimestatRisk::High), "high");
}
