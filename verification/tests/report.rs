use last_epoch_build_as_plaintext::json::{Json, JsonNumber};
use last_epoch_build_as_plaintext::sub_logic::gear::{write_blessings, write_equipment, write_idols};
use last_epoch_build_as_plaintext::sub_logic::report::{Report, Segment};
use last_epoch_build_as_plaintext::sub_logic::resolver::{Detail, Resolver, StatLine};
use last_epoch_build_as_plaintext::sub_logic::trees::{write_passives, write_skills};
use last_epoch_build_as_plaintext::sub_logic::{
    build_report, write_character_info, write_stats, FORGING_NOTE,
};

fn num(v: u64) -> Json {
    Json::Number(JsonNumber { as_u64: Some(v), f64_bits: (v as f64).to_bits(), text: v.to_string() })
}

fn float(v: f64) -> Json {
    Json::Number(JsonNumber { as_u64: None, f64_bits: v.to_bits(), text: v.to_string() })
}

fn s(x: &str) -> Json {
    Json::Str(x.to_string())
}

fn obj(members: Vec<(&str, Json)>) -> Json {
    Json::Object(members.into_iter().map(|(k, v)| (k.to_string(), v)).collect())
}

fn arr(items: Vec<Json>) -> Json {
    Json::Array(items)
}

// ---------------------------------------------------------------- rendering
fn f(bits: u64) -> f32 {
    f64::from_bits(bits) as f32
}

fn as_percent(first: f32) -> bool {
    first.abs() < 2.0 && first != 0.0
}

fn number(v: f32, percent: bool) -> String {
    if percent {
        format!("{:.0}%", v * 100.0)
    } else {
        format!("{:.0}", v)
    }
}

fn render_line(line: &StatLine) -> String {
    match line {
        StatLine::AffixRoll { tier, min_bits, max_bits, roll_bits, property } => {
            let (min, max, roll) = (f(*min_bits), f(*max_bits), f(*roll_bits));
            let val = min + (max - min) * (roll / 255.0);
            let p = as_percent(min);
            if min == max {
                format!("[T{}] +{} {}", tier, number(val, p), property)
            } else {
                format!(
                    "[T{}] +{} ({}-{}) {}",
                    tier,
                    number(val, p),
                    number(min, p),
                    number(max, p),
                    property
                )
            }
        },
        StatLine::Range { min_bits, max_bits, property } => {
            let (min, max) = (f(*min_bits), f(*max_bits));
            let p = as_percent(min);
            if min == max {
                format!("{} {}", number(min, p), property)
            } else {
                format!("{}-{} {}", number(min, p), number(max, p), property)
            }
        },
        StatLine::Fixed { value_bits, property } => {
            let v = f(*value_bits);
            format!("+{} {}", number(v, as_percent(v)), property)
        },
        StatLine::Rolled { value_bits, max_bits, roll, property } => {
            let (value, max) = (f(*value_bits), f(*max_bits));
            let val = value + (max - value) * (*roll as f32 / 255.0);
            let p = as_percent(value);
            if value == max {
                format!("+{} {}", number(val, p), property)
            } else {
                format!("+{} ({}-{}) {}", number(val, p), number(value, p), number(max, p), property)
            }
        },
    }
}

fn render_lines(lines: &[StatLine]) -> String {
    lines.iter().map(render_line).collect::<Vec<_>>().join(", ")
}

fn render(r: &Report) -> String {
    let mut out = String::new();
    for seg in &r.segments {
        match seg {
            Segment::Text(t) => out.push_str(t),
            Segment::Stats(lines) => out.push_str(&render_lines(lines)),
        }
    }
    out
}

fn render_detail(d: &Detail) -> String {
    match d {
        Detail::Stat(l) => render_line(l),
        Detail::Text(t) => t.clone(),
    }
}

// ---------------------------------------------------------------- fixtures
fn translations() -> Json {
    obj(vec![
        (
            "full",
            obj(vec![
                ("Affix_Health", s("Added Health")),
                ("Mod_Health", s("Health")),
                ("Item_Ring", s("Ruby Ring")),
                ("BT_Ring", s("Ring")),
                ("Unique_Band", s("Band of Echoes")),
                ("Skills.Skill_fb_0_Name", s("Fireball")),
                ("Skills.Skill_fb_0_Description", s("Hurls <b>fire</b>")),
                ("Skills.Skill_fb_1_Name", s("Bigger Ball")),
                ("Skills.Skill_fb_1_Description", s("More\nfire")),
                ("Skills.Skill_pr-1_5_Name", s("Natural Attunement")),
                ("Skills.Skill_pr-1_5_Description", s("<i>Grow</i> strong")),
                ("Skills.Skill_pr-1_6_Name", s("Skills.Unnamed")),
                ("Desc_Band", s("<color>Echoes</color> twice")),
                ("Prop_Armour", s("Armour")),
                ("PP_Speed", s("Movement Speed")),
                ("Shared", s("from full")),
            ]),
        ),
        ("Top_Key", s("Top Value")),
        ("Shared", s("from top")),
        ("NotText", num(3)),
    ])
}

fn core_db() -> Json {
    obj(vec![
        (
            "propertyList",
            arr(vec![
                obj(vec![("property", num(4)), ("propertyNameKey", s("Prop_Armour"))]),
                obj(vec![("property", num(200)), ("propertyNameKey", s("Prop_Untranslated"))]),
                obj(vec![("propertyNameKey", s("No_Id"))]),
            ]),
        ),
        (
            "playerPropertyList",
            arr(vec![
                obj(vec![("propertyNameKey", s("PP_Speed"))]),
                obj(vec![("other", num(1))]),
                obj(vec![("propertyNameKey", s("PP_Raw"))]),
            ]),
        ),
    ])
}

fn item_db() -> Json {
    obj(vec![
        (
            "affixList",
            obj(vec![
                (
                    "singleAffixes",
                    obj(vec![(
                        "a1",
                        obj(vec![
                            ("id", s("7")),
                            ("affixDisplayNameKey", s("Affix_Health")),
                            ("affixProperties", arr(vec![obj(vec![("modDisplayNameKey", s("Mod_Health"))])])),
                            (
                                "tiers",
                                arr(vec![
                                    obj(vec![("rolls", arr(vec![obj(vec![("min", num(10)), ("max", num(20))])]))]),
                                    obj(vec![(
                                        "rolls",
                                        arr(vec![obj(vec![("min", float(0.05)), ("max", float(0.1))])]),
                                    )]),
                                ]),
                            ),
                        ]),
                    )]),
                ),
                (
                    "multiAffixes",
                    obj(vec![
                        (
                            "m1",
                            obj(vec![
                                ("id", s("8")),
                                ("affixDisplayNameKey", s("Untranslated_Affix")),
                                ("affixProperties", arr(vec![])),
                                ("tiers", arr(vec![obj(vec![("rolls", arr(vec![obj(vec![("min", num(5)), ("max", num(5))])]))])])),
                            ]),
                        ),
                        ("m2", s("not an affix")),
                    ]),
                ),
            ]),
        ),
        (
            "itemList",
            obj(vec![
                (
                    "equippable",
                    obj(vec![(
                        "20",
                        obj(vec![
                            ("displayNameKey", s("BT_Ring")),
                            (
                                "subItems",
                                arr(vec![obj(vec![
                                    ("id", s("3")),
                                    ("displayNameKey", s("Item_Ring")),
                                    (
                                        "implicits",
                                        arr(vec![
                                            obj(vec![
                                                ("property", num(4)),
                                                ("implicitValue", num(10)),
                                                ("implicitMaxValue", num(20)),
                                                ("tags", num(0)),
                                            ]),
                                            obj(vec![
                                                ("property", num(98)),
                                                ("implicitValue", float(0.1)),
                                                ("implicitMaxValue", float(0.1)),
                                                ("tags", num(0)),
                                            ]),
                                        ]),
                                    ),
                                ])]),
                            ),
                        ]),
                    )]),
                ),
                (
                    "nonEquippable",
                    obj(vec![(
                        "30",
                        obj(vec![
                            ("displayNameKey", s("No_Translation")),
                            (
                                "subItems",
                                obj(vec![("x", obj(vec![("id", s("9")), ("displayNameKey", s("Blessing_Key"))]))]),
                            ),
                        ]),
                    )]),
                ),
            ]),
        ),
        (
            "uniqueList",
            obj(vec![(
                "uniques",
                obj(vec![(
                    "u1",
                    obj(vec![
                        ("id", s("100")),
                        ("displayNameKey", s("Unique_Band")),
                        ("baseTypeId", num(20)),
                        ("subTypeId", num(3)),
                        (
                            "mods",
                            arr(vec![
                                obj(vec![
                                    ("property", num(4)),
                                    ("value", num(50)),
                                    ("maxValue", num(50)),
                                    ("rollId", num(0)),
                                    ("canRoll", num(0)),
                                ]),
                                obj(vec![
                                    ("property", num(4)),
                                    ("value", num(10)),
                                    ("maxValue", num(30)),
                                    ("rollId", num(1)),
                                    ("canRoll", num(1)),
                                ]),
                            ]),
                        ),
                        (
                            "tooltipDescriptions",
                            arr(vec![
                                obj(vec![("descriptionKey", s("Desc_Band"))]),
                                obj(vec![("descriptionKey", s("Missing_Key"))]),
                            ]),
                        ),
                    ]),
                )]),
            )]),
        ),
    ])
}

fn abilities() -> Json {
    obj(vec![
        ("fb", obj(vec![("nameKey", s("Skills.Skill_fb_0_Name"))])),
        ("sb", obj(vec![("name", s("Smoke Bomb"))])),
        ("xk", obj(vec![("nameKey", s("Raw_Key")), ("descriptionKey", s("Skills.Skill_fb_1_Description"))])),
        ("bad", num(5)),
    ])
}

fn resolver() -> Resolver {
    Resolver::new(Some(&translations()), Some(&core_db()), Some(&item_db()), Some(&abilities()))
}

fn build() -> Json {
    obj(vec![
        (
            "data",
            obj(vec![
                (
                    "bio",
                    obj(vec![
                        ("characterClass", num(0)),
                        ("chosenMastery", num(1)),
                        ("level", num(95)),
                        ("name", s("Tester")),
                    ]),
                ),
                ("hud", arr(vec![s("fb"), num(5)])),
                ("skillTrees", arr(vec![obj(vec![("treeID", s("fb")), ("selected", obj(vec![("1", num(3))]))])])),
                ("charTree", obj(vec![("selected", obj(vec![("5", num(4))]))])),
                (
                    "equipment",
                    obj(vec![
                        ("amulet", obj(vec![("id", s("100")), ("ir", arr(vec![num(7), num(255)]))])),
                        (
                            "ring1",
                            obj(vec![
                                ("id", s("3")),
                                (
                                    "affixes",
                                    arr(vec![obj(vec![("id", s("7")), ("tier", num(1)), ("r", num(255))])]),
                                ),
                                ("sealedAffix", obj(vec![("id", s("8"))])),
                                ("corruptedAffix", obj(vec![("id", s("999")), ("tier", num(4))])),
                            ]),
                        ),
                    ]),
                ),
                (
                    "idols",
                    arr(vec![
                        obj(vec![
                            ("id", s("3")),
                            (
                                "affixes",
                                arr(vec![
                                    obj(vec![("id", s("7")), ("tier", num(2)), ("r", num(0))]),
                                    obj(vec![("id", s("404")), ("tier", num(3))]),
                                ]),
                            ),
                        ]),
                        obj(vec![("noid", num(1))]),
                        obj(vec![("id", s("9"))]),
                    ]),
                ),
                (
                    "blessings",
                    obj(vec![
                        ("1", obj(vec![("id", s("9"))])),
                        ("2", Json::Null),
                        ("3", obj(vec![("x", num(1))])),
                        ("4", obj(vec![("id", s("3"))])),
                    ]),
                ),
            ]),
        ),
        (
            "precalc_data",
            obj(vec![(
                "data",
                obj(vec![
                    ("general", obj(vec![("Health", num(1200))])),
                    ("attributes", obj(vec![("Strength", num(10))])),
                    ("resistances", obj(vec![])),
                    ("defences", obj(vec![("Armour", s("5"))])),
                ]),
            )]),
        ),
    ])
}

fn skill_dump() -> Json {
    obj(vec![(
        "fb",
        obj(vec![(
            "nodes",
            obj(vec![
                (
                    "10",
                    obj(vec![
                        ("maxPoints", num(5)),
                        ("requirements", arr(vec![obj(vec![("nodeId", num(1)), ("requirement", num(2))])])),
                    ]),
                ),
                ("1", obj(vec![("maxPoints", num(3))])),
                ("x", obj(vec![("maxPoints", num(1))])),
            ]),
        )]),
    )])
}

fn char_dump() -> Json {
    obj(vec![(
        "trees",
        arr(vec![obj(vec![(
            "characterTree",
            obj(vec![(
                "nodes",
                obj(vec![
                    (
                        "6",
                        obj(vec![
                            ("mastery", num(1)),
                            ("maxPoints", num(1)),
                            ("nodeNameKey", s("Passive_Six")),
                            ("masteryRequirement", num(10)),
                            (
                                "requirements",
                                arr(vec![
                                    obj(vec![("nodeId", num(5)), ("requirement", num(3))]),
                                    obj(vec![("nodeId", num(77)), ("requirement", num(1))]),
                                ]),
                            ),
                            (
                                "stats",
                                arr(vec![obj(vec![
                                    ("value", s("10%")),
                                    ("property", num(3)),
                                    ("noScaling", Json::Bool(true)),
                                ])]),
                            ),
                        ]),
                    ),
                    (
                        "5",
                        obj(vec![
                            ("mastery", num(0)),
                            ("maxPoints", num(8)),
                            ("nodeNameKey", s("NK5")),
                            (
                                "stats",
                                arr(vec![
                                    obj(vec![
                                        ("value", s("+5")),
                                        ("statNameKey", s("Stat_Str")),
                                        ("noScaling", Json::Bool(false)),
                                    ]),
                                    obj(vec![
                                        ("property", num(7)),
                                        ("noScaling", Json::Bool(true)),
                                        ("noScalingPointThreshold", num(4)),
                                    ]),
                                ]),
                            ),
                        ]),
                    ),
                ]),
            )]),
        )])]),
    )])
}

// ---------------------------------------------------------------- resolver
#[test]
fn resolver_names() {
    let r = resolver();
    assert_eq!(r.get_affix_name("7"), "Added Health");
    assert_eq!(r.get_affix_name("8"), "Untranslated_Affix");
    assert_eq!(r.get_affix_name("nope"), "nope");
    assert_eq!(r.get_item_name("3"), "Ruby Ring");
    assert_eq!(r.get_item_name("100"), "Band of Echoes");
    assert_eq!(r.get_item_name("9"), "Blessing_Key");
    assert_eq!(r.get_item_name("unknown"), "unknown");
    assert_eq!(r.get_item_type_name("3"), Some("Ring".to_string()));
    assert_eq!(r.get_item_type_name("100"), Some("Ring".to_string()));
    assert_eq!(r.get_item_type_name("9"), None);
    assert_eq!(r.get_item_type_name("unknown"), None);
    assert_eq!(r.get_base_type_name(20), Some(&"Ring".to_string()));
    assert_eq!(r.get_base_type_name(30), None);
}

#[test]
fn resolver_translations_later_members_win() {
    let r = resolver();
    assert_eq!(r.get_skill_name_bypassing("Shared"), "from top");
    assert_eq!(r.get_skill_name_bypassing("Top_Key"), "Top Value");
    assert_eq!(r.get_skill_name_bypassing("NotText"), "NotText");
}

#[test]
fn resolver_skill_names_and_descriptions() {
    let r = resolver();
    assert_eq!(r.get_skill_name("fb"), "Fireball");
    assert_eq!(r.get_skill_name("sb"), "Smoke Bomb");
    assert_eq!(r.get_skill_name("xk"), "Raw_Key");
    assert_eq!(r.get_skill_name("zz"), "zz");
    assert_eq!(r.get_skill_description("fb"), "Hurls fire");
    assert_eq!(r.get_skill_description("xk"), "More\nfire");
    assert_eq!(r.get_skill_description("zz"), "");
    assert_eq!(r.get_skill_node_name("fb", "1"), "Bigger Ball");
    assert_eq!(r.get_skill_node_name("fb", "2"), "Node 2");
    assert_eq!(r.get_skill_node_description("fb", "1"), "More\nfire");
    assert_eq!(r.get_skill_node_description("fb", "2"), "");
    assert_eq!(r.clean_html("<a>b</a>c"), "bc");
}

#[test]
fn resolver_passive_names() {
    let r = resolver();
    assert_eq!(r.get_passive_name(0, 5), "Natural Attunement");
    assert_eq!(r.get_passive_name(0, 6), "Skills.Unnamed");
    assert_eq!(r.get_passive_name(1, 5), "Passive 5");
    assert_eq!(r.get_passive_name(9, 1), "Unknown Class 9");
    assert_eq!(r.get_passive_description(0, 5), "Grow strong");
    assert_eq!(r.get_passive_description(0, 7), "");
    assert_eq!(r.get_passive_description(9, 1), "");
}

#[test]
fn resolver_affix_detail() {
    let r = resolver();
    assert_eq!(render_lines(&r.get_affix_detail("7", 1, 255f64.to_bits())), "[T1] +20 (10-20) Health");
    assert_eq!(render_lines(&r.get_affix_detail("7", 1, 0f64.to_bits())), "[T1] +10 (10-20) Health");
    assert_eq!(render_lines(&r.get_affix_detail("7", 0, 0f64.to_bits())), "[T0] +10 (10-20) Health");
    assert_eq!(render_lines(&r.get_affix_detail("7", 2, 0f64.to_bits())), "[T2] +5% (5%-10%) Health");
    assert!(r.get_affix_detail("7", 3, 0).is_empty());
    assert!(r.get_affix_detail("nope", 1, 0).is_empty());
    assert_eq!(render_lines(&r.get_affix_detail("8", 1, 0)), "[T1] +5 Unknown Property");
}

#[test]
fn resolver_implicits_and_unique_detail() {
    let r = resolver();
    assert_eq!(render_lines(&r.get_item_implicits("3")), "10-20 Armour, 10% Movement Speed");
    assert!(r.get_item_implicits("9").is_empty());
    assert!(r.get_item_implicits("unknown").is_empty());
    let details: Vec<String> = r.get_unique_detail("100", &[7, 255]).iter().map(render_detail).collect();
    assert_eq!(
        details,
        vec!["10-20 Armour", "10% Movement Speed", "+50 Armour", "+30 (10-30) Armour", "Echoes twice"]
    );
    let missing_roll: Vec<String> = r.get_unique_detail("100", &[]).iter().map(render_detail).collect();
    assert_eq!(missing_roll[3], "+10 (10-30) Armour");
    assert!(r.get_unique_detail("3", &[]).is_empty());
}

#[test]
fn resolver_properties_from_core_db() {
    let r = resolver();
    let imp = obj(vec![(
        "itemList",
        obj(vec![(
            "equippable",
            obj(vec![(
                "1",
                obj(vec![(
                    "subItems",
                    arr(vec![obj(vec![
                        ("id", s("50")),
                        (
                            "implicits",
                            arr(vec![
                                obj(vec![("property", num(200)), ("implicitValue", num(3)), ("implicitMaxValue", num(3))]),
                                obj(vec![("property", num(98)), ("tags", num(2)), ("implicitValue", num(4)), ("implicitMaxValue", num(4))]),
                                obj(vec![("property", num(98)), ("tags", num(1)), ("implicitValue", num(4)), ("implicitMaxValue", num(4))]),
                                obj(vec![("property", num(0)), ("implicitValue", num(2)), ("implicitMaxValue", num(6))]),
                                obj(vec![("property", num(500)), ("implicitValue", num(2)), ("implicitMaxValue", num(2))]),
                            ]),
                        ),
                    ])]),
                )]),
            )]),
        )]),
    )]);
    let r2 = Resolver::new(Some(&translations()), Some(&core_db()), Some(&imp), None);
    assert_eq!(
        render_lines(&r2.get_item_implicits("50")),
        "3 Prop_Untranslated, 4 PP_Raw, 4 Unknown Player Property, 2-6 Damage, 2 Unknown Property"
    );
    assert_eq!(r.get_skill_name("fb"), "Fireball");
}

#[test]
fn resolver_without_documents() {
    let r = Resolver::new(None, None, None, None);
    assert_eq!(r.get_item_name("3"), "3");
    assert_eq!(r.get_skill_name("fb"), "fb");
    assert_eq!(r.get_passive_name(0, 1), "Passive 1");
    assert!(r.get_item_type_name("3").is_none());
}

// ---------------------------------------------------------------- sections
#[test]
fn character_info_section() {
    assert_eq!(
        write_character_info(&build()),
        "Name: Tester\nLevel: 95\nClass: Primalist\nMastery: Beastmaster\n\n"
    );
    assert_eq!(
        write_character_info(&obj(vec![])),
        "Name: N/A\nLevel: N/A\nClass: Unknown Class\nMastery: Base Class\n\n"
    );
}

#[test]
fn stats_section() {
    assert_eq!(
        write_stats(&build()),
        "General:\n  Health: 1200\n\nAttributes:\n  Strength: 10\n\nResistances:\n\nDefences:\n  Armour: \"5\"\n"
    );
    assert_eq!(write_stats(&obj(vec![])), "No stats data found.\n");
}

#[test]
fn skills_section_with_tree_dump() {
    let r = resolver();
    let dump = skill_dump();
    let expected = [
        "Active Skills (HUD):\n  - Fireball\n    Hurls fire\n  - 5\n",
        "\n--- Skill Trees Configured ---\nSkill: Fireball\n",
        "  - Name: \"Node x\"\n    AllocatedPoints: 0\n    MaxPoints: 1\n    Requirements: None\n\n",
        "  - Name: \"Bigger Ball\"\n    AllocatedPoints: 3\n    MaxPoints: 3\n    Requirements: None\n",
        "    Effect: \"More\n      fire\"\n\n",
        "  - Name: \"Node 10\"\n    AllocatedPoints: 0\n    MaxPoints: 5\n",
        "    Requirements: \"Requires 2 pts in Bigger Ball\"\n\n",
    ]
    .concat();
    assert_eq!(write_skills(&build(), &r, Some(&dump)), expected);
}

#[test]
fn skills_section_without_tree_dump() {
    let r = resolver();
    let expected = "Active Skills (HUD):\n  - Fireball\n    Hurls fire\n  - 5\n\
\n--- Skill Trees Configured ---\nSkill: Fireball\n  - Bigger Ball (Points: 3)\n";
    assert_eq!(write_skills(&build(), &r, None), expected);
    assert_eq!(write_skills(&obj(vec![]), &r, None), "No skills data found.\n");
}

#[test]
fn passives_section_with_tree_dump() {
    let r = resolver();
    let dump = char_dump();
    let expected = [
        "\n--- Class Passives DAG ---\n",
        "\n  [Primalist]\n  - Name: \"Natural Attunement\"\n    AllocatedPoints: 4\n    MaxPoints: 8\n",
        "    Requirements: None\n",
        "    ScalingEffects:\n      - \"+5 Stat_Str per point\"\n",
        "    Breakpoints:\n      - \"At 4 pts: ? to property #7\"\n\n",
        "\n  [Beastmaster]\n  - Name: \"Passive_Six\"\n    AllocatedPoints: 0\n    MaxPoints: 1\n",
        "    Requirements: \"Requires 10 points in mastery, Requires 3 pts in Natural Attunement, Requires 1 pts in Node 77\"\n",
        "    Breakpoints:\n      - \"At 1 pts: 10% to property #3\"\n\n",
    ]
    .concat();
    assert_eq!(write_passives(&build(), &r, Some(&dump)), expected);
}

#[test]
fn passives_section_without_tree_dump() {
    let r = resolver();
    assert_eq!(
        write_passives(&build(), &r, None),
        "\n--- Class Passives DAG ---\n  - Node 5 (Points: 4)\n"
    );
    assert_eq!(write_passives(&obj(vec![]), &r, None), "");
}

#[test]
fn equipment_section() {
    let r = resolver();
    let mut rep = Report::new();
    write_equipment(&mut rep, &build(), &r);
    let expected = [
        "Slot: amulet\n  Item: Band of Echoes (Ring)\n  Stats:\n",
        "    - 10-20 Armour\n    - 10% Movement Speed\n    - +50 Armour\n",
        "    - +30 (10-30) Armour\n    - Echoes twice\n\n",
        "Slot: ring1\n  Item: Ruby Ring (Ring)\n  Implicits: 10-20 Armour, 10% Movement Speed\n",
        "  Affixes:\n    - [T1] +20 (10-20) Health\n    - [T1] +5 Unknown Property (Sealed)\n",
        "    - [T4] (Experimental) 999\n\n",
    ]
    .concat();
    assert_eq!(render(&rep), expected);
    let mut empty = Report::new();
    write_equipment(&mut empty, &obj(vec![]), &r);
    assert_eq!(render(&empty), "No equipment data found.\n");
}

#[test]
fn idols_section() {
    let r = resolver();
    let mut rep = Report::new();
    write_idols(&mut rep, &build(), &r);
    let expected = "Slot 1: Ruby Ring (Ring)\n    - [T2] +5% (5%-10%) Health\n    - [T3] 404\n\nSlot 3: Blessing_Key\n\n";
    assert_eq!(render(&rep), expected);
    let mut none = Report::new();
    write_idols(&mut none, &obj(vec![("data", obj(vec![("idols", arr(vec![]))]))]), &r);
    assert_eq!(render(&none), "No idols equipped in the Idol Altar.\n");
    let mut missing = Report::new();
    write_idols(&mut missing, &obj(vec![("data", obj(vec![("idols", num(1))]))]), &r);
    assert_eq!(render(&missing), "No idols data found.\n");
}

#[test]
fn blessings_section() {
    let r = resolver();
    let mut rep = Report::new();
    write_blessings(&mut rep, &build(), &r);
    let expected = "Fall of the Outcasts: Blessing_Key\nThe Stolen Lance: No Blessing\nThe Black Sun: No Blessing\n\
Blood, Frost, and Death: Ruby Ring\n  - 10-20 Armour, 10% Movement Speed\nEnding the Storm: No Blessing\n\
Fall of the Empire: No Blessing\nReign of Dragons: No Blessing\nThe Last Ruin: No Blessing\n\
Age of Winter: No Blessing\nSpirits of Fire: No Blessing\n";
    assert_eq!(render(&rep), expected);
    let mut missing = Report::new();
    write_blessings(&mut missing, &obj(vec![]), &r);
    assert_eq!(render(&missing), "No blessings data found.\n");
}

#[test]
fn blessings_list_every_timeline() {
    let r = resolver();
    let mut rep = Report::new();
    write_blessings(&mut rep, &obj(vec![("data", obj(vec![("blessings", obj(vec![]))]))]), &r);
    let text = render(&rep);
    assert_eq!(text.lines().count(), 10);
    assert!(text.lines().all(|l| l.ends_with(": No Blessing")));
}

#[test]
fn whole_report() {
    let r = resolver();
    let b = build();
    let sk = skill_dump();
    let ch = char_dump();
    let rep = build_report("https://example.test/planner/abc", &b, &r, Some(&sk), Some(&ch));
    let text = render(&rep);
    let mut expected = String::new();
    expected.push_str("Build Data for https://example.test/planner/abc\n\n");
    expected.push_str(FORGING_NOTE);
    expected.push_str("\n\n");
    expected.push_str(&write_character_info(&b));
    expected.push_str("--- Character Stats ---\n");
    expected.push_str(&write_stats(&b));
    expected.push_str("\n--- Skills & Passives ---\n");
    expected.push_str(&write_skills(&b, &r, Some(&sk)));
    expected.push_str(&write_passives(&b, &r, Some(&ch)));
    expected.push_str("\n--- Equipment ---\n");
    let mut eq = Report::new();
    write_equipment(&mut eq, &b, &r);
    expected.push_str(&render(&eq));
    expected.push_str("\n--- Idols ---\n");
    let mut id = Report::new();
    write_idols(&mut id, &b, &r);
    expected.push_str(&render(&id));
    expected.push_str("\n--- Blessings ---\n");
    let mut bl = Report::new();
    write_blessings(&mut bl, &b, &r);
    expected.push_str(&render(&bl));
    assert_eq!(text, expected);
    assert!(text.starts_with("Build Data for https://example.test/planner/abc\n\nNote: Last Epoch tools"));
}

#[test]
fn report_append_and_push() {
    let mut a = Report::new();
    a.push_str("x");
    let mut b = Report::new();
    b.push_string("y".to_string());
    b.push_stats(vec![StatLine::Fixed { value_bits: 3f64.to_bits(), property: "P".to_string() }]);
    a.append(b);
    assert_eq!(render(&a), "xy+3 P");
    assert_eq!(a.segments.len(), 3);
}

#[test]
fn translations_come_only_from_their_document() {
    let with_all = resolver();
    let only_translations = Resolver::new(Some(&translations()), None, None, None);
    for key in ["Shared", "Top_Key", "Item_Ring", "Prop_Armour", "Unique_Band", "NotText", "zz"] {
        assert_eq!(with_all.get_skill_name_bypassing(key), only_translations.get_skill_name_bypassing(key));
    }
}

#[test]
fn builtin_properties_keep_their_names() {
    let doc = obj(vec![(
        "itemList",
        obj(vec![(
            "equippable",
            obj(vec![(
                "1",
                obj(vec![(
                    "subItems",
                    arr(vec![obj(vec![
                        ("id", s("60")),
                        (
                            "implicits",
                            arr(vec![
                                obj(vec![("property", num(124)), ("implicitValue", num(2)), ("implicitMaxValue", num(2))]),
                                obj(vec![("property", num(4)), ("implicitValue", num(2)), ("implicitMaxValue", num(2))]),
                                obj(vec![("property", num(125)), ("implicitValue", num(2)), ("implicitMaxValue", num(2))]),
                            ]),
                        ),
                    ])]),
                )]),
            )]),
        )]),
    )]);
    let r = Resolver::new(Some(&translations()), Some(&core_db()), Some(&doc), None);
    assert_eq!(
        render_lines(&r.get_item_implicits("60")),
        "2 UnimportanceModifier, 2 Armour, 2 Unknown Property"
    );
}
