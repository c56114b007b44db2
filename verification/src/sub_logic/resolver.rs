//! Resolves the identifiers found in build data (skills, passives, items,
//! affixes, properties) to display names, from the game databases that the
//! planner page serves.
use vstd::prelude::*;
use vstd::hash_map::{HashMapWithView, StringHashMap};

use crate::json::{
    as_array_of, as_f64_bits_of, as_object_of, as_str_of, as_u64_of, get_in, jarr, jf64, jget,
    jobj, json_get, jstr, ju64, member, opt_json, u64_or, Json,
};
use crate::text::{
    append_dec, clean_html, dec, dec_text, parse_u32_or_zero, parse_unsigned, stripped, views,
};

verus! {

broadcast use vstd::std_specs::hash::group_hash_axioms;

/// Lower and upper end of one roll of an affix tier, as `f64` bit patterns.
#[derive(Clone, Copy)]
pub struct RollData {
    pub min_bits: u64,
    pub max_bits: u64,
}

/// The rolls of one affix tier.
pub struct TierData {
    pub rolls: Vec<RollData>,
}

/// An affix: its name key, the name keys of its properties, and its tiers.
pub struct AffixData {
    pub display_name_key: String,
    pub properties: Vec<String>,
    pub tiers: Vec<TierData>,
}

/// An ability: its name, name key and description key, where it has them.
pub struct AbilityData {
    pub name: Option<String>,
    pub name_key: Option<String>,
    pub description_key: Option<String>,
}

/// One implicit of a base item; values are `f64` bit patterns.
#[derive(Clone, Copy)]
pub struct ImplicitData {
    pub property_id: u32,
    pub tags: u32,
    pub value_bits: u64,
    pub max_value_bits: u64,
}

/// A base item: its base type and implicits.
pub struct ItemData {
    pub base_type_id: u32,
    pub implicits: Vec<ImplicitData>,
}

/// One modifier of a unique item; values are `f64` bit patterns.
#[derive(Clone, Copy)]
pub struct UniqueMod {
    pub property_id: u32,
    pub value_bits: u64,
    pub max_value_bits: u64,
    pub roll_id: usize,
    pub can_roll: bool,
}

/// A unique item: its base item, modifiers and description keys.
pub struct UniqueData {
    pub base_type_id: u32,
    pub sub_type_id: u32,
    pub mods: Vec<UniqueMod>,
    pub tooltip_descriptions: Vec<String>,
}

/// An affix as mathematical values.
pub struct AffixView {
    pub display_name_key: Seq<char>,
    pub properties: Seq<Seq<char>>,
    pub tiers: Seq<Seq<RollData>>,
}

/// An ability as mathematical values.
pub struct AbilityView {
    pub name: Option<Seq<char>>,
    pub name_key: Option<Seq<char>>,
    pub description_key: Option<Seq<char>>,
}

/// A base item as mathematical values.
pub struct ItemView {
    pub base_type_id: u32,
    pub implicits: Seq<ImplicitData>,
}

/// A unique item as mathematical values.
pub struct UniqueView {
    pub base_type_id: u32,
    pub sub_type_id: u32,
    pub mods: Seq<UniqueMod>,
    pub tooltip_descriptions: Seq<Seq<char>>,
}

pub open spec fn opt_view(o: Option<String>) -> Option<Seq<char>> {
    match o {
        Some(s) => Some(s@),
        None => None,
    }
}

impl View for TierData {
    type V = Seq<RollData>;

    open spec fn view(&self) -> Seq<RollData> {
        self.rolls@
    }
}

impl View for AffixData {
    type V = AffixView;

    open spec fn view(&self) -> AffixView {
        AffixView {
            display_name_key: self.display_name_key@,
            properties: views(self.properties@),
            tiers: self.tiers@.map_values(|t: TierData| t@),
        }
    }
}

impl View for AbilityData {
    type V = AbilityView;

    open spec fn view(&self) -> AbilityView {
        AbilityView {
            name: opt_view(self.name),
            name_key: opt_view(self.name_key),
            description_key: opt_view(self.description_key),
        }
    }
}

impl View for ItemData {
    type V = ItemView;

    open spec fn view(&self) -> ItemView {
        ItemView { base_type_id: self.base_type_id, implicits: self.implicits@ }
    }
}

impl View for UniqueData {
    type V = UniqueView;

    open spec fn view(&self) -> UniqueView {
        UniqueView {
            base_type_id: self.base_type_id,
            sub_type_id: self.sub_type_id,
            mods: self.mods@,
            tooltip_descriptions: views(self.tooltip_descriptions@),
        }
    }
}

/// A map with each value taken by its view.
pub open spec fn vmap<K, V: View>(m: Map<K, V>) -> Map<K, V::V> {
    m.map_values(|v: V| v@)
}

/// Viewing a sequence commutes with pushing onto it.
pub proof fn lemma_vseq_push<T: View>(s: Seq<T>, x: T)
    ensures
        vseq(s.push(x)) == vseq(s).push(x@),
{
    assert(vseq(s.push(x)) =~= vseq(s).push(x@));
}

/// Viewing a map commutes with inserting into it.
pub proof fn lemma_vmap_insert<K, V: View>(m: Map<K, V>, k: K, v: V)
    ensures
        vmap(m.insert(k, v)) == vmap(m).insert(k, v@),
{
    assert(vmap(m.insert(k, v)) =~= vmap(m).insert(k, v@));
}

/// Everything the resolver knows, by views.
#[verifier::ext_equal]
pub struct ResolverModel {
    pub translations: Map<Seq<char>, Seq<char>>,
    pub affixes: Map<Seq<char>, AffixView>,
    pub abilities: Map<Seq<char>, AbilityView>,
    pub item_keys: Map<Seq<char>, Seq<char>>,
    pub items: Map<Seq<char>, ItemView>,
    pub base_items: Map<u64, ItemView>,
    pub unique_keys: Map<Seq<char>, Seq<char>>,
    pub uniques: Map<Seq<char>, UniqueView>,
    pub properties: Map<u32, Seq<char>>,
    pub player_properties: Map<u32, Seq<char>>,
    pub base_type_names: Map<u32, Seq<char>>,
}

/// The built-in property names, by property id.
pub const PROPERTY_NAMES: [&'static str; 125] = [
    "Damage",
    "Ailment Chance",
    "Attack Speed",
    "Cast Speed",
    "Critical Chance",
    "Critical Multiplier",
    "Damage Taken",
    "Health",
    "Mana",
    "Movespeed",
    "Armor",
    "Dodge Rating",
    "Stun Avoidance",
    "Fire Resistance",
    "Cold Resistance",
    "Lightning Resistance",
    "Ward Retention",
    "Health Regen",
    "Mana Regen",
    "Strength",
    "Vitality",
    "Intelligence",
    "Dexterity",
    "Attunement",
    "Mana Before Health Percent",
    "Channel Cost",
    "Void Resistance",
    "Necrotic Resistance",
    "Poison Resistance",
    "Block Chance",
    "All Resistances",
    "Damage Taken As Physical",
    "Damage Taken As Fire",
    "Damage Taken As Cold",
    "Damage Taken As Lightning",
    "Damage Taken As Necrotic",
    "Damage Taken As Void",
    "Damage Taken As Poison",
    "Health Gain",
    "Ward Gain",
    "Mana Gain",
    "Adaptive Spell Damage",
    "Increased Ailment Duration",
    "Increased Ailment Effect",
    "Increased Healing",
    "Increased Stun Chance",
    "All Attributes",
    "Increased Potion Drop Rate",
    "Potion Health",
    "Potion Slots",
    "Haste On Hit Chance",
    "Health Leech",
    "Elemental Resistance",
    "Block Effectiveness",
    "None",
    "Increased Stun Immunity Duration",
    "Stun Immunity",
    "Mana Drain",
    "Ability Property",
    "Penetration",
    "Current Health Drain",
    "Maximum Companions",
    "Glancing Blow Chance",
    "Cull Percent From Passives",
    "Physical Resistance",
    "Cull Percent From Weapon",
    "Mana Cost",
    "Freeze Rate Multiplier",
    "Increased Chance To Be Frozen",
    "Mana Efficiency",
    "Increased Cooldown Recovery Speed",
    "Received Stun Duration",
    "Negative Physical Resistance",
    "Chill Retaliation Chance",
    "Slow Retaliation Chance",
    "Endurance",
    "Endurance Threshold",
    "Negative Armour",
    "Negative Fire Resistance",
    "Negative Cold Resistance",
    "Negative Lightning Resistance",
    "Negative Void Resistance",
    "Negative Necrotic Resistance",
    "Negative Poison Resistance",
    "Negative Elemental Resistance",
    "Thorns",
    "Percent Reflect",
    "Shock Retaliation Chance",
    "Level Of Skills",
    "Crit Avoidance",
    "Potion Health Converted To Ward",
    "Ward On Potion Use",
    "Ward Regen",
    "Overkill Leech",
    "Mana Before Ward Percent",
    "Increased Stun Duration",
    "Maximum Health Gained As Endurance Threshold",
    "Chance To Gain 30 Ward When Hit",
    "Player Property",
    "Mana Spent Gained As Ward",
    "Ailment Conversion",
    "PerceivedUnimportanceModifier",
    "IncreasedLeechRate",
    "MoreFreezeRatePerStackOfChill",
    "IncreasedDropRate",
    "IncreasedExperience",
    "PhysicalAndVoidResistance",
    "NecroticAndPoisonResistance",
    "DamageTakenBuff",
    "IncreasedChanceToBeStunned",
    "DamageTakenFromNearbyEnemies",
    "BlockChanceAgainstDistantEnemies",
    "ChanceToBeCrit",
    "DamageTakenWhileMoving",
    "ReducedBonusDamageTakenFromCrits",
    "DamagePerStackOfAilment",
    "IncreasedAreaForAreaSkills",
    "GlobalConditionalDamage",
    "ArmourMitigationAppliesToDamageOverTime",
    "WardDecayThreshold",
    "EffectOfAilmentOnYou",
    "ParryChance",
    "CircleOfFortuneLensEffect",
    "TrackerProperty",
    "UnimportanceModifier",
];

/// The built-in property names as a map.
pub open spec fn default_properties() -> Map<u32, Seq<char>> {
    Map::new(|k: u32| k < 125, |k: u32| PROPERTY_NAMES@[k as int]@)
}

/// What a resolver knows before any database is loaded.
pub open spec fn initial_model() -> ResolverModel {
    ResolverModel {
        translations: Map::empty(),
        affixes: Map::empty(),
        abilities: Map::empty(),
        item_keys: Map::empty(),
        items: Map::empty(),
        base_items: Map::empty(),
        unique_keys: Map::empty(),
        uniques: Map::empty(),
        properties: default_properties(),
        player_properties: Map::empty(),
        base_type_names: Map::empty(),
    }
}

/// The values of the members of an object, in order.
pub open spec fn member_values(es: Seq<(String, Json)>) -> Seq<Json> {
    es.map_values(|e: (String, Json)| e.1)
}

// ---- translations ----
/// Adds every member whose value is a string, in order, later ones winning.
pub open spec fn insert_strings(t: Map<Seq<char>, Seq<char>>, es: Seq<(String, Json)>) -> Map<
    Seq<char>,
    Seq<char>,
>
    decreases es.len(),
{
    if es.len() == 0 {
        t
    } else {
        let t2 = insert_strings(t, es.drop_last());
        match es.last().1 {
            Json::Str(s) => t2.insert(es.last().0@, s@),
            _ => t2,
        }
    }
}

/// Translations from a document: the string members of its `full` object,
/// then its own string members.
pub open spec fn translations_loaded(m: ResolverModel, doc: Json) -> ResolverModel {
    match doc {
        Json::Object(es) => {
            let t1 = match jobj(member(es@, "full"@)) {
                Some(full) => insert_strings(m.translations, full),
                None => m.translations,
            };
            ResolverModel { translations: insert_strings(t1, es@), ..m }
        },
        _ => m,
    }
}

// ---- properties ----
pub open spec fn property_step(m: ResolverModel, item: Json) -> ResolverModel {
    match (ju64(json_get(item, "property"@)), jstr(json_get(item, "propertyNameKey"@))) {
        (Some(id), Some(k)) => ResolverModel {
            properties: m.properties.insert(id as u32, lookup_or(m.translations, k, k)),
            ..m
        },
        _ => m,
    }
}

pub open spec fn property_steps(m: ResolverModel, items: Seq<Json>) -> ResolverModel
    decreases items.len(),
{
    if items.len() == 0 {
        m
    } else {
        property_step(property_steps(m, items.drop_last()), items.last())
    }
}

pub open spec fn player_property_steps(m: ResolverModel, items: Seq<Json>) -> ResolverModel
    decreases items.len(),
{
    if items.len() == 0 {
        m
    } else {
        let m2 = player_property_steps(m, items.drop_last());
        let i = items.len() - 1;
        match jstr(json_get(items.last(), "propertyNameKey"@)) {
            Some(k) => ResolverModel {
                player_properties: m2.player_properties.insert(
                    i as u32,
                    lookup_or(m2.translations, k, k),
                ),
                ..m2
            },
            None => m2,
        }
    }
}

/// Property names from the core database: `propertyList` by property id,
/// then `playerPropertyList` by position; each name translated when it can be.
pub open spec fn properties_loaded(m: ResolverModel, doc: Json) -> ResolverModel {
    let m1 = match jarr(json_get(doc, "propertyList"@)) {
        Some(a) => property_steps(m, a),
        None => m,
    };
    match jarr(json_get(doc, "playerPropertyList"@)) {
        Some(a) => player_property_steps(m1, a),
        None => m1,
    }
}

// ---- base items ----
pub open spec fn implicit_of(imp: Json) -> ImplicitData {
    ImplicitData {
        property_id: u64_or(ju64(json_get(imp, "property"@)), 0) as u32,
        tags: u64_or(ju64(json_get(imp, "tags"@)), 0) as u32,
        value_bits: u64_or(jf64(json_get(imp, "implicitValue"@)), 0),
        max_value_bits: u64_or(jf64(json_get(imp, "implicitMaxValue"@)), 0),
    }
}

pub open spec fn implicits_of(sub: Json) -> Seq<ImplicitData> {
    match jarr(json_get(sub, "implicits"@)) {
        Some(a) => a.map_values(|imp: Json| implicit_of(imp)),
        None => Seq::empty(),
    }
}

/// `s.parse::<u32>().unwrap_or(0)`.
pub open spec fn u32_or_zero(s: Seq<char>) -> u32 {
    match parse_unsigned(s, u32::MAX as nat) {
        Some(v) => v as u32,
        None => 0,
    }
}

pub open spec fn sub_item_step(m: ResolverModel, base: u32, sub: Json) -> ResolverModel {
    match jstr(json_get(sub, "id"@)) {
        Some(id) => {
            let m1 = match jstr(json_get(sub, "displayNameKey"@)) {
                Some(k) => ResolverModel { item_keys: m.item_keys.insert(id, k), ..m },
                None => m,
            };
            let data = ItemView { base_type_id: base, implicits: implicits_of(sub) };
            ResolverModel {
                items: m1.items.insert(id, data),
                base_items: m1.base_items.insert(base_item_key(base, u32_or_zero(id)), data),
                ..m1
            }
        },
        None => m,
    }
}

pub open spec fn sub_item_steps(m: ResolverModel, base: u32, subs: Seq<Json>) -> ResolverModel
    decreases subs.len(),
{
    if subs.len() == 0 {
        m
    } else {
        sub_item_step(sub_item_steps(m, base, subs.drop_last()), base, subs.last())
    }
}

pub open spec fn base_type_step(m: ResolverModel, key: Seq<char>, bt: Json) -> ResolverModel {
    let base = u32_or_zero(key);
    let m1 = match jstr(json_get(bt, "displayNameKey"@)) {
        Some(dk) => if m.translations.contains_key(dk) {
            ResolverModel { base_type_names: m.base_type_names.insert(base, m.translations[dk]), ..m }
        } else {
            m
        },
        None => m,
    };
    let m2 = match jarr(json_get(bt, "subItems"@)) {
        Some(a) => sub_item_steps(m1, base, a),
        None => m1,
    };
    match jobj(json_get(bt, "subItems"@)) {
        Some(es) => sub_item_steps(m2, base, member_values(es)),
        None => m2,
    }
}

pub open spec fn base_type_steps(m: ResolverModel, es: Seq<(String, Json)>) -> ResolverModel
    decreases es.len(),
{
    if es.len() == 0 {
        m
    } else {
        base_type_step(base_type_steps(m, es.drop_last()), es.last().0@, es.last().1)
    }
}

pub open spec fn category_loaded(m: ResolverModel, list: Seq<(String, Json)>, name: Seq<char>) -> ResolverModel {
    match jobj(member(list, name)) {
        Some(es) => base_type_steps(m, es),
        None => m,
    }
}

/// Base items from the item database: the `equippable` then the
/// `nonEquippable` base types of `itemList`, each with its sub-items.
pub open spec fn items_loaded(m: ResolverModel, doc: Json) -> ResolverModel {
    match jobj(json_get(doc, "itemList"@)) {
        Some(list) => category_loaded(
            category_loaded(m, list, "equippable"@),
            list,
            "nonEquippable"@,
        ),
        None => m,
    }
}

// ---- uniques ----
pub open spec fn mod_of(x: Json) -> UniqueMod {
    UniqueMod {
        property_id: u64_or(ju64(json_get(x, "property"@)), 0) as u32,
        value_bits: u64_or(jf64(json_get(x, "value"@)), 0),
        max_value_bits: u64_or(jf64(json_get(x, "maxValue"@)), 0),
        roll_id: u64_or(ju64(json_get(x, "rollId"@)), 0) as usize,
        can_roll: u64_or(ju64(json_get(x, "canRoll"@)), 0) == 1,
    }
}

/// The description keys present, in order.
pub open spec fn description_keys(ds: Seq<Json>) -> Seq<Seq<char>>
    decreases ds.len(),
{
    if ds.len() == 0 {
        Seq::empty()
    } else {
        match jstr(json_get(ds.last(), "descriptionKey"@)) {
            Some(k) => description_keys(ds.drop_last()).push(k),
            None => description_keys(ds.drop_last()),
        }
    }
}

pub open spec fn unique_of(v: Json) -> UniqueView {
    UniqueView {
        base_type_id: u64_or(ju64(json_get(v, "baseTypeId"@)), 0) as u32,
        sub_type_id: u64_or(ju64(json_get(v, "subTypeId"@)), 0) as u32,
        mods: match jarr(json_get(v, "mods"@)) {
            Some(a) => a.map_values(|x: Json| mod_of(x)),
            None => Seq::empty(),
        },
        tooltip_descriptions: match jarr(json_get(v, "tooltipDescriptions"@)) {
            Some(a) => description_keys(a),
            None => Seq::empty(),
        },
    }
}

pub open spec fn unique_step(m: ResolverModel, v: Json) -> ResolverModel {
    match jstr(json_get(v, "id"@)) {
        Some(id) => {
            let m1 = match jstr(json_get(v, "displayNameKey"@)) {
                Some(k) => ResolverModel { unique_keys: m.unique_keys.insert(id, k), ..m },
                None => m,
            };
            ResolverModel { uniques: m1.uniques.insert(id, unique_of(v)), ..m1 }
        },
        None => m,
    }
}

pub open spec fn unique_steps(m: ResolverModel, vs: Seq<Json>) -> ResolverModel
    decreases vs.len(),
{
    if vs.len() == 0 {
        m
    } else {
        unique_step(unique_steps(m, vs.drop_last()), vs.last())
    }
}

/// Uniques from the item database: the members of `uniqueList.uniques`.
pub open spec fn uniques_loaded(m: ResolverModel, doc: Json) -> ResolverModel {
    match jobj(jget(json_get(doc, "uniqueList"@), "uniques"@)) {
        Some(es) => unique_steps(m, member_values(es)),
        None => m,
    }
}

// ---- affixes ----
pub open spec fn roll_of(r: Json) -> RollData {
    RollData {
        min_bits: u64_or(jf64(json_get(r, "min"@)), 0),
        max_bits: u64_or(jf64(json_get(r, "max"@)), 0),
    }
}

pub open spec fn tier_of(t: Json) -> Seq<RollData> {
    match jarr(json_get(t, "rolls"@)) {
        Some(a) => a.map_values(|r: Json| roll_of(r)),
        None => Seq::empty(),
    }
}

pub open spec fn affix_property_key(p: Json) -> Seq<char> {
    str_or(jstr(json_get(p, "modDisplayNameKey"@)), Seq::empty())
}

pub open spec fn affix_of(v: Json) -> AffixView {
    AffixView {
        display_name_key: str_or(jstr(json_get(v, "affixDisplayNameKey"@)), Seq::empty()),
        properties: match jarr(json_get(v, "affixProperties"@)) {
            Some(a) => a.map_values(|p: Json| affix_property_key(p)),
            None => Seq::empty(),
        },
        tiers: match jarr(json_get(v, "tiers"@)) {
            Some(a) => a.map_values(|t: Json| tier_of(t)),
            None => Seq::empty(),
        },
    }
}

pub open spec fn affix_step(m: ResolverModel, v: Json) -> ResolverModel {
    if v is Object {
        match jstr(json_get(v, "id"@)) {
            Some(id) => ResolverModel { affixes: m.affixes.insert(id, affix_of(v)), ..m },
            None => m,
        }
    } else {
        m
    }
}

pub open spec fn affix_steps(m: ResolverModel, vs: Seq<Json>) -> ResolverModel
    decreases vs.len(),
{
    if vs.len() == 0 {
        m
    } else {
        affix_step(affix_steps(m, vs.drop_last()), vs.last())
    }
}

pub open spec fn affix_group_loaded(m: ResolverModel, list: Seq<(String, Json)>, name: Seq<char>) -> ResolverModel {
    match jobj(member(list, name)) {
        Some(es) => affix_steps(m, member_values(es)),
        None => m,
    }
}

/// Affixes from the item database: `singleAffixes` then `multiAffixes` of
/// `affixList`.
pub open spec fn affixes_loaded(m: ResolverModel, doc: Json) -> ResolverModel {
    match jobj(json_get(doc, "affixList"@)) {
        Some(list) => affix_group_loaded(
            affix_group_loaded(m, list, "singleAffixes"@),
            list,
            "multiAffixes"@,
        ),
        None => m,
    }
}

// ---- abilities ----
pub open spec fn ability_of(v: Json) -> AbilityView {
    AbilityView {
        name: jstr(json_get(v, "name"@)),
        name_key: jstr(json_get(v, "nameKey"@)),
        description_key: jstr(json_get(v, "descriptionKey"@)),
    }
}

pub open spec fn ability_steps(m: ResolverModel, es: Seq<(String, Json)>) -> ResolverModel
    decreases es.len(),
{
    if es.len() == 0 {
        m
    } else {
        let m2 = ability_steps(m, es.drop_last());
        if es.last().1 is Object {
            ResolverModel { abilities: m2.abilities.insert(es.last().0@, ability_of(es.last().1)), ..m2 }
        } else {
            m2
        }
    }
}

/// Abilities from the abilities document: every member whose value is an
/// object, by member name.
pub open spec fn abilities_loaded(m: ResolverModel, doc: Json) -> ResolverModel {
    match doc {
        Json::Object(es) => ability_steps(m, es@),
        _ => m,
    }
}

pub open spec fn load_opt(
    m: ResolverModel,
    doc: Option<Json>,
    f: spec_fn(ResolverModel, Json) -> ResolverModel,
) -> ResolverModel {
    match doc {
        Some(d) => f(m, d),
        None => m,
    }
}

/// What a resolver knows after loading the documents that were found, in
/// the order translations, core database (properties), item database
/// (affixes, base items, uniques), abilities.
pub open spec fn resolver_loaded(
    translations: Option<Json>,
    core_db: Option<Json>,
    item_db: Option<Json>,
    abilities: Option<Json>,
) -> ResolverModel {
    let m1 = load_opt(initial_model(), translations, |m, d| translations_loaded(m, d));
    let m2 = load_opt(m1, core_db, |m, d| properties_loaded(m, d));
    let m3 = load_opt(m2, item_db, |m, d| affixes_loaded(m, d));
    let m4 = load_opt(m3, item_db, |m, d| items_loaded(m, d));
    let m5 = load_opt(m4, item_db, |m, d| uniques_loaded(m, d));
    load_opt(m5, abilities, |m, d| abilities_loaded(m, d))
}

/// The names a model resolves with: its translations and its property
/// names.
pub open spec fn same_names(a: ResolverModel, b: ResolverModel) -> bool {
    a.translations == b.translations && a.properties == b.properties
}

proof fn lemma_sub_item_steps_keep_names(m: ResolverModel, base: u32, subs: Seq<Json>)
    ensures
        same_names(sub_item_steps(m, base, subs), m),
    decreases subs.len(),
{
    if subs.len() > 0 {
        lemma_sub_item_steps_keep_names(m, base, subs.drop_last());
    }
}

proof fn lemma_base_type_steps_keep_names(m: ResolverModel, es: Seq<(String, Json)>)
    ensures
        same_names(base_type_steps(m, es), m),
    decreases es.len(),
{
    if es.len() > 0 {
        let m0 = base_type_steps(m, es.drop_last());
        lemma_base_type_steps_keep_names(m, es.drop_last());
        let bt = es.last().1;
        let base = u32_or_zero(es.last().0@);
        let m1 = match jstr(json_get(bt, "displayNameKey"@)) {
            Some(dk) => if m0.translations.contains_key(dk) {
                ResolverModel {
                    base_type_names: m0.base_type_names.insert(base, m0.translations[dk]),
                    ..m0
                }
            } else {
                m0
            },
            None => m0,
        };
        if let Some(a) = jarr(json_get(bt, "subItems"@)) {
            lemma_sub_item_steps_keep_names(m1, base, a);
        }
        let m2 = match jarr(json_get(bt, "subItems"@)) {
            Some(a) => sub_item_steps(m1, base, a),
            None => m1,
        };
        if let Some(o) = jobj(json_get(bt, "subItems"@)) {
            lemma_sub_item_steps_keep_names(m2, base, member_values(o));
        }
    }
}

proof fn lemma_unique_steps_keep_names(m: ResolverModel, vs: Seq<Json>)
    ensures
        same_names(unique_steps(m, vs), m),
    decreases vs.len(),
{
    if vs.len() > 0 {
        lemma_unique_steps_keep_names(m, vs.drop_last());
    }
}

proof fn lemma_affix_steps_keep_names(m: ResolverModel, vs: Seq<Json>)
    ensures
        same_names(affix_steps(m, vs), m),
    decreases vs.len(),
{
    if vs.len() > 0 {
        lemma_affix_steps_keep_names(m, vs.drop_last());
    }
}

proof fn lemma_ability_steps_keep_names(m: ResolverModel, es: Seq<(String, Json)>)
    ensures
        same_names(ability_steps(m, es), m),
    decreases es.len(),
{
    if es.len() > 0 {
        lemma_ability_steps_keep_names(m, es.drop_last());
    }
}

proof fn lemma_player_property_steps_keep_names(m: ResolverModel, items: Seq<Json>)
    ensures
        same_names(player_property_steps(m, items), m),
    decreases items.len(),
{
    if items.len() > 0 {
        lemma_player_property_steps_keep_names(m, items.drop_last());
    }
}

proof fn lemma_property_steps_keep_ids(m: ResolverModel, items: Seq<Json>, k: u32)
    requires
        m.properties.contains_key(k),
    ensures
        property_steps(m, items).properties.contains_key(k),
        property_steps(m, items).translations == m.translations,
    decreases items.len(),
{
    if items.len() > 0 {
        lemma_property_steps_keep_ids(m, items.drop_last(), k);
    }
}

/// Loading the item database (affixes, base items, uniques) or the abilities
/// changes neither the translations nor the property names.
proof fn lemma_databases_keep_names(m: ResolverModel, item_db: Option<Json>, abilities: Option<Json>)
    ensures
        same_names(
            load_opt(
                load_opt(
                    load_opt(load_opt(m, item_db, |m, d| affixes_loaded(m, d)), item_db, |m, d| items_loaded(m, d)),
                    item_db,
                    |m, d| uniques_loaded(m, d),
                ),
                abilities,
                |m, d| abilities_loaded(m, d),
            ),
            m,
        ),
{
    let m3 = load_opt(m, item_db, |m, d| affixes_loaded(m, d));
    let m4 = load_opt(m3, item_db, |m, d| items_loaded(m, d));
    let m5 = load_opt(m4, item_db, |m, d| uniques_loaded(m, d));
    if let Some(d) = item_db {
        if let Some(list) = jobj(json_get(d, "affixList"@)) {
            if let Some(es) = jobj(member(list, "singleAffixes"@)) {
                lemma_affix_steps_keep_names(m, member_values(es));
            }
            let ma = affix_group_loaded(m, list, "singleAffixes"@);
            if let Some(es) = jobj(member(list, "multiAffixes"@)) {
                lemma_affix_steps_keep_names(ma, member_values(es));
            }
        }
        if let Some(list) = jobj(json_get(d, "itemList"@)) {
            if let Some(es) = jobj(member(list, "equippable"@)) {
                lemma_base_type_steps_keep_names(m3, es);
            }
            let mi = category_loaded(m3, list, "equippable"@);
            if let Some(es) = jobj(member(list, "nonEquippable"@)) {
                lemma_base_type_steps_keep_names(mi, es);
            }
        }
        if let Some(es) = jobj(jget(json_get(d, "uniqueList"@), "uniques"@)) {
            lemma_unique_steps_keep_names(m4, member_values(es));
        }
    }
    if let Some(d) = abilities {
        if let Json::Object(es) = d {
            lemma_ability_steps_keep_names(m5, es@);
        }
    }
}

/// A resolver's translations come from the translations document alone:
/// the other databases never change them.
pub proof fn law_translations_come_from_their_document(
    translations: Option<Json>,
    core_db: Option<Json>,
    item_db: Option<Json>,
    abilities: Option<Json>,
)
    ensures
        resolver_loaded(translations, core_db, item_db, abilities).translations == load_opt(
            initial_model(),
            translations,
            |m, d| translations_loaded(m, d),
        ).translations,
{
    let m1 = load_opt(initial_model(), translations, |m, d| translations_loaded(m, d));
    let m2 = load_opt(m1, core_db, |m, d| properties_loaded(m, d));
    if let Some(d) = core_db {
        let m1a = match jarr(json_get(d, "propertyList"@)) {
            Some(a) => property_steps(m1, a),
            None => m1,
        };
        if let Some(a) = jarr(json_get(d, "propertyList"@)) {
            lemma_property_steps_translations(m1, a);
        }
        if let Some(a) = jarr(json_get(d, "playerPropertyList"@)) {
            lemma_player_property_steps_keep_names(m1a, a);
        }
    }
    lemma_databases_keep_names(m2, item_db, abilities);
}

proof fn lemma_property_steps_translations(m: ResolverModel, items: Seq<Json>)
    ensures
        property_steps(m, items).translations == m.translations,
    decreases items.len(),
{
    if items.len() > 0 {
        lemma_property_steps_translations(m, items.drop_last());
    }
}

/// Every built-in property id keeps a name, whatever databases are loaded.
pub proof fn law_builtin_properties_keep_a_name(
    translations: Option<Json>,
    core_db: Option<Json>,
    item_db: Option<Json>,
    abilities: Option<Json>,
    id: u32,
)
    requires
        id < 125,
    ensures
        resolver_loaded(translations, core_db, item_db, abilities).properties.contains_key(id),
{
    let m1 = load_opt(initial_model(), translations, |m, d| translations_loaded(m, d));
    assert(m1.properties.contains_key(id));
    let m2 = load_opt(m1, core_db, |m, d| properties_loaded(m, d));
    if let Some(d) = core_db {
        let m1a = match jarr(json_get(d, "propertyList"@)) {
            Some(a) => property_steps(m1, a),
            None => m1,
        };
        if let Some(a) = jarr(json_get(d, "propertyList"@)) {
            lemma_property_steps_keep_ids(m1, a, id);
        }
        if let Some(a) = jarr(json_get(d, "playerPropertyList"@)) {
            lemma_player_property_steps_keep_names(m1a, a);
        }
    }
    assert(m2.properties.contains_key(id));
    lemma_databases_keep_names(m2, item_db, abilities);
}

/// Looks up display names and details by identifier.
pub struct Resolver {
    translations: StringHashMap<String>,
    affix_map: StringHashMap<AffixData>,
    ability_map: StringHashMap<AbilityData>,
    item_map: StringHashMap<String>,
    item_data_map: StringHashMap<ItemData>,
    base_item_map: HashMapWithView<u64, ItemData>,
    unique_map: StringHashMap<String>,
    unique_data_map: StringHashMap<UniqueData>,
    property_map: HashMapWithView<u32, String>,
    player_property_map: HashMapWithView<u32, String>,
    base_type_name_map: HashMapWithView<u32, String>,
}

impl View for Resolver {
    type V = ResolverModel;

    closed spec fn view(&self) -> ResolverModel {
        ResolverModel {
            translations: vmap(self.translations@),
            affixes: vmap(self.affix_map@),
            abilities: vmap(self.ability_map@),
            item_keys: vmap(self.item_map@),
            items: vmap(self.item_data_map@),
            base_items: vmap(self.base_item_map@),
            unique_keys: vmap(self.unique_map@),
            uniques: vmap(self.unique_data_map@),
            properties: vmap(self.property_map@),
            player_properties: vmap(self.player_property_map@),
            base_type_names: vmap(self.base_type_name_map@),
        }
    }
}

/// `m[k]` where present, `d` otherwise.
pub open spec fn lookup_or<K>(m: Map<K, Seq<char>>, k: K, d: Seq<char>) -> Seq<char> {
    if m.contains_key(k) {
        m[k]
    } else {
        d
    }
}

pub open spec fn str_or(o: Option<Seq<char>>, d: Seq<char>) -> Seq<char> {
    match o {
        Some(s) => s,
        None => d,
    }
}

/// The key under which a base item of `(base type, sub type)` is kept.
pub open spec fn base_item_key(base_type_id: u32, sub_type_id: u32) -> u64 {
    (base_type_id as u64 * 4294967296 + sub_type_id as u64) as u64
}

/// The class prefix used in passive translation keys.
pub open spec fn class_prefix(class_id: u8) -> Option<Seq<char>> {
    if class_id == 0 {
        Some("pr"@)
    } else if class_id == 1 {
        Some("mg"@)
    } else if class_id == 2 {
        Some("se"@)
    } else if class_id == 3 {
        Some("ac"@)
    } else if class_id == 4 {
        Some("rg"@)
    } else {
        None
    }
}

/// One line of numeric detail.  The numbers are `f64` bit patterns (and a
/// roll byte); turning them into text is floating-point work done by the
/// caller.
pub enum StatLine {
    /// An affix roll: `[T{tier}] +value (min-max) property`.
    AffixRoll { tier: usize, min_bits: u64, max_bits: u64, roll_bits: u64, property: String },
    /// An implicit range: `min-max property`.
    Range { min_bits: u64, max_bits: u64, property: String },
    /// A unique modifier that does not roll: `+value property`.
    Fixed { value_bits: u64, property: String },
    /// A unique modifier rolled by byte `roll` out of 255.
    Rolled { value_bits: u64, max_bits: u64, roll: u8, property: String },
}

/// A detail line as mathematical values.
pub enum StatLineView {
    AffixRoll { tier: usize, min_bits: u64, max_bits: u64, roll_bits: u64, property: Seq<char> },
    Range { min_bits: u64, max_bits: u64, property: Seq<char> },
    Fixed { value_bits: u64, property: Seq<char> },
    Rolled { value_bits: u64, max_bits: u64, roll: u8, property: Seq<char> },
}

impl View for StatLine {
    type V = StatLineView;

    open spec fn view(&self) -> StatLineView {
        match self {
            StatLine::AffixRoll { tier, min_bits, max_bits, roll_bits, property } =>
                StatLineView::AffixRoll {
                tier: *tier,
                min_bits: *min_bits,
                max_bits: *max_bits,
                roll_bits: *roll_bits,
                property: property@,
            },
            StatLine::Range { min_bits, max_bits, property } => StatLineView::Range {
                min_bits: *min_bits,
                max_bits: *max_bits,
                property: property@,
            },
            StatLine::Fixed { value_bits, property } => StatLineView::Fixed {
                value_bits: *value_bits,
                property: property@,
            },
            StatLine::Rolled { value_bits, max_bits, roll, property } => StatLineView::Rolled {
                value_bits: *value_bits,
                max_bits: *max_bits,
                roll: *roll,
                property: property@,
            },
        }
    }
}

/// One detail line of a unique item: numeric, or a description text.
pub enum Detail {
    Stat(StatLine),
    Text(String),
}

/// A unique detail line as mathematical values.
pub enum DetailView {
    Stat(StatLineView),
    Text(Seq<char>),
}

impl View for Detail {
    type V = DetailView;

    open spec fn view(&self) -> DetailView {
        match self {
            Detail::Stat(l) => DetailView::Stat(l@),
            Detail::Text(s) => DetailView::Text(s@),
        }
    }
}

/// A sequence taken element by element by view.
pub open spec fn vseq<T: View>(s: Seq<T>) -> Seq<T::V> {
    s.map_values(|x: T| x@)
}

impl ResolverModel {
    pub open spec fn skill_name(self, id: Seq<char>) -> Seq<char> {
        let direct = "Skills.Skill_"@ + id + "_0_Name"@;
        if self.translations.contains_key(direct) {
            self.translations[direct]
        } else if self.abilities.contains_key(id) && self.abilities[id].name is Some {
            self.abilities[id].name->0
        } else if self.abilities.contains_key(id) && self.abilities[id].name_key is Some {
            let key = self.abilities[id].name_key->0;
            lookup_or(self.translations, key, key)
        } else {
            id
        }
    }

    pub open spec fn skill_description(self, id: Seq<char>) -> Seq<char> {
        let direct = "Skills.Skill_"@ + id + "_0_Description"@;
        if self.abilities.contains_key(id) && self.abilities[id].description_key is Some
            && self.translations.contains_key(self.abilities[id].description_key->0) {
            stripped(self.translations[self.abilities[id].description_key->0])
        } else if self.translations.contains_key(direct) {
            stripped(self.translations[direct])
        } else {
            Seq::empty()
        }
    }

    pub open spec fn name_bypassing(self, key: Seq<char>) -> Seq<char> {
        lookup_or(self.translations, key, key)
    }

    pub open spec fn skill_node_name(self, skill_id: Seq<char>, node_id: Seq<char>) -> Seq<char> {
        let key = "Skills.Skill_"@ + skill_id + "_"@ + node_id + "_Name"@;
        lookup_or(self.translations, key, "Node "@ + node_id)
    }

    pub open spec fn skill_node_description(self, skill_id: Seq<char>, node_id: Seq<char>) -> Seq<
        char,
    > {
        let key = "Skills.Skill_"@ + skill_id + "_"@ + node_id + "_Description"@;
        if self.translations.contains_key(key) {
            stripped(self.translations[key])
        } else {
            Seq::empty()
        }
    }

    pub open spec fn passive_name(self, class_id: u8, node_id: u8) -> Seq<char> {
        match class_prefix(class_id) {
            None => "Unknown Class "@ + dec(class_id as nat),
            Some(p) => {
                let key = "Skills.Skill_"@ + p + "-1_"@ + dec(node_id as nat) + "_Name"@;
                lookup_or(self.translations, key, "Passive "@ + dec(node_id as nat))
            },
        }
    }

    pub open spec fn passive_description(self, class_id: u8, node_id: u8) -> Seq<char> {
        match class_prefix(class_id) {
            None => Seq::empty(),
            Some(p) => {
                let key = "Skills.Skill_"@ + p + "-1_"@ + dec(node_id as nat) + "_Description"@;
                if self.translations.contains_key(key) {
                    stripped(self.translations[key])
                } else {
                    Seq::empty()
                }
            },
        }
    }

    pub open spec fn item_name(self, id: Seq<char>) -> Seq<char> {
        if self.unique_keys.contains_key(id) {
            lookup_or(self.translations, self.unique_keys[id], self.unique_keys[id])
        } else if self.item_keys.contains_key(id) {
            lookup_or(self.translations, self.item_keys[id], self.item_keys[id])
        } else {
            id
        }
    }

    pub open spec fn base_type_name(self, base_type_id: u32) -> Option<Seq<char>> {
        if self.base_type_names.contains_key(base_type_id) {
            Some(self.base_type_names[base_type_id])
        } else {
            None
        }
    }

    pub open spec fn item_type_name(self, id: Seq<char>) -> Option<Seq<char>> {
        if self.uniques.contains_key(id) {
            self.base_type_name(self.uniques[id].base_type_id)
        } else if self.items.contains_key(id) {
            self.base_type_name(self.items[id].base_type_id)
        } else {
            None
        }
    }

    pub open spec fn affix_name(self, id: Seq<char>) -> Seq<char> {
        if self.affixes.contains_key(id) {
            let key = self.affixes[id].display_name_key;
            lookup_or(self.translations, key, key)
        } else {
            id
        }
    }

    /// The name of the `i`-th property of an affix.
    pub open spec fn affix_property_name(self, a: AffixView, i: int) -> Seq<char> {
        let key = if i < a.properties.len() {
            a.properties[i]
        } else {
            Seq::empty()
        };
        lookup_or(self.translations, key, "Unknown Property"@)
    }

    pub open spec fn affix_detail(self, id: Seq<char>, tier: usize, roll_bits: u64) -> Seq<
        StatLineView,
    > {
        let tier_idx: int = if tier > 0 {
            tier - 1
        } else {
            0
        };
        if self.affixes.contains_key(id) && tier_idx < self.affixes[id].tiers.len() {
            let a = self.affixes[id];
            let rolls = a.tiers[tier_idx];
            Seq::new(
                rolls.len(),
                |i: int|
                    StatLineView::AffixRoll {
                        tier: tier,
                        min_bits: rolls[i].min_bits,
                        max_bits: rolls[i].max_bits,
                        roll_bits: roll_bits,
                        property: self.affix_property_name(a, i),
                    },
            )
        } else {
            Seq::empty()
        }
    }

    /// The name of the property of an implicit.
    pub open spec fn implicit_property_name(self, imp: ImplicitData) -> Seq<char> {
        if imp.property_id == 98 {
            lookup_or(self.player_properties, imp.tags, "Unknown Player Property"@)
        } else {
            lookup_or(self.properties, imp.property_id, "Unknown Property"@)
        }
    }

    pub open spec fn implicit_line(self, imp: ImplicitData) -> StatLineView {
        StatLineView::Range {
            min_bits: imp.value_bits,
            max_bits: imp.max_value_bits,
            property: self.implicit_property_name(imp),
        }
    }

    pub open spec fn implicit_lines(self, imps: Seq<ImplicitData>) -> Seq<StatLineView> {
        Seq::new(imps.len(), |i: int| self.implicit_line(imps[i]))
    }

    pub open spec fn item_implicits(self, id: Seq<char>) -> Seq<StatLineView> {
        if self.items.contains_key(id) {
            self.implicit_lines(self.items[id].implicits)
        } else {
            Seq::empty()
        }
    }

    pub open spec fn mod_detail(self, m: UniqueMod, ir: Seq<u8>) -> DetailView {
        let property = lookup_or(self.properties, m.property_id, "Unknown"@);
        if !m.can_roll {
            DetailView::Stat(StatLineView::Fixed { value_bits: m.value_bits, property })
        } else {
            DetailView::Stat(
                StatLineView::Rolled {
                    value_bits: m.value_bits,
                    max_bits: m.max_value_bits,
                    roll: if m.roll_id < ir.len() {
                        ir[m.roll_id as int]
                    } else {
                        0
                    },
                    property,
                },
            )
        }
    }

    /// The translated, tag-free texts of those description keys that have a
    /// translation.
    pub open spec fn tooltip_details(self, keys: Seq<Seq<char>>) -> Seq<DetailView>
        decreases keys.len(),
    {
        if keys.len() == 0 {
            Seq::empty()
        } else if self.translations.contains_key(keys.last()) {
            self.tooltip_details(keys.drop_last()).push(
                DetailView::Text(stripped(self.translations[keys.last()])),
            )
        } else {
            self.tooltip_details(keys.drop_last())
        }
    }

    pub open spec fn unique_detail(self, id: Seq<char>, ir: Seq<u8>) -> Seq<DetailView> {
        if self.uniques.contains_key(id) {
            let u = self.uniques[id];
            let key = base_item_key(u.base_type_id, u.sub_type_id);
            let base = if self.base_items.contains_key(key) {
                self.implicit_lines(self.base_items[key].implicits).map_values(
                    |l: StatLineView| DetailView::Stat(l),
                )
            } else {
                Seq::empty()
            };
            base + Seq::new(u.mods.len(), |i: int| self.mod_detail(u.mods[i], ir))
                + self.tooltip_details(u.tooltip_descriptions)
        } else {
            Seq::empty()
        }
    }
}

/// The description lines of a unique come one per translated key, in key
/// order: the lines of two runs of keys are those of the first followed by
/// those of the second.
pub proof fn law_tooltip_details_concatenate(m: ResolverModel, s: Seq<Seq<char>>, t: Seq<Seq<char>>)
    ensures
        m.tooltip_details(s + t) == m.tooltip_details(s) + m.tooltip_details(t),
    decreases t.len(),
{
    if t.len() == 0 {
        assert(s + t =~= s);
        assert(m.tooltip_details(s) + m.tooltip_details(t) =~= m.tooltip_details(s));
    } else {
        law_tooltip_details_concatenate(m, s, t.drop_last());
        assert((s + t).drop_last() =~= s + t.drop_last());
        assert((s + t).last() == t.last());
        if m.translations.contains_key(t.last()) {
            let x = DetailView::Text(stripped(m.translations[t.last()]));
            assert((m.tooltip_details(s) + m.tooltip_details(t.drop_last())).push(x)
                =~= m.tooltip_details(s) + m.tooltip_details(t.drop_last()).push(x));
        }
    }
}

/// One description key gives its translation without tags, or nothing when
/// it has no translation.
pub proof fn law_tooltip_detail_single(m: ResolverModel, k: Seq<char>)
    ensures
        m.tooltip_details(seq![k]) == if m.translations.contains_key(k) {
            seq![DetailView::Text(stripped(m.translations[k]))]
        } else {
            Seq::<DetailView>::empty()
        },
{
    assert(seq![k].drop_last() =~= Seq::<Seq<char>>::empty());
    assert(seq![k].last() == k);
    assert(m.tooltip_details(Seq::<Seq<char>>::empty()) == Seq::<DetailView>::empty());
    if m.translations.contains_key(k) {
        assert(Seq::<DetailView>::empty().push(DetailView::Text(stripped(m.translations[k])))
            =~= seq![DetailView::Text(stripped(m.translations[k]))]);
    }
}

/// The detail of a known affix tier has one line per roll of the tier, in
/// order: the roll's range, the tier and roll asked for, and the name of the
/// affix property at the same position (its translation, or "Unknown
/// Property" when it has none); an unknown affix or tier has no lines.
pub proof fn law_affix_detail_lines(m: ResolverModel, id: Seq<char>, tier: usize, roll_bits: u64)
    ensures
        ({
            let t: int = if tier > 0 { tier - 1 } else { 0 };
            let d = m.affix_detail(id, tier, roll_bits);
            if m.affixes.contains_key(id) && t < m.affixes[id].tiers.len() {
                let a = m.affixes[id];
                let rolls = a.tiers[t];
                &&& d.len() == rolls.len()
                &&& forall|i: int|
                    0 <= i < rolls.len() ==> #[trigger] d[i] == (StatLineView::AffixRoll {
                        tier: tier,
                        min_bits: rolls[i].min_bits,
                        max_bits: rolls[i].max_bits,
                        roll_bits: roll_bits,
                        property: lookup_or(
                            m.translations,
                            if i < a.properties.len() {
                                a.properties[i]
                            } else {
                                Seq::empty()
                            },
                            "Unknown Property"@,
                        ),
                    })
            } else {
                d.len() == 0
            }
        }),
{
}

/// The name an implicit's property is shown under: for property 98 (a player
/// property) the player property named by its tags, otherwise the property
/// itself, with a fallback when the name is unknown.
pub open spec fn implicit_name_in(m: ResolverModel, imp: ImplicitData) -> Seq<char> {
    if imp.property_id == 98 {
        if m.player_properties.contains_key(imp.tags) {
            m.player_properties[imp.tags]
        } else {
            "Unknown Player Property"@
        }
    } else if m.properties.contains_key(imp.property_id) {
        m.properties[imp.property_id]
    } else {
        "Unknown Property"@
    }
}

/// The implicit lines of a known base item are one range line per implicit,
/// in order, each with the implicit's own values and property name; an
/// unknown item has none.
pub proof fn law_item_implicit_lines(m: ResolverModel, id: Seq<char>)
    ensures
        !m.items.contains_key(id) ==> m.item_implicits(id).len() == 0,
        m.items.contains_key(id) ==> ({
            let imps = m.items[id].implicits;
            let d = m.item_implicits(id);
            &&& d.len() == imps.len()
            &&& forall|i: int|
                0 <= i < imps.len() ==> #[trigger] d[i] == (StatLineView::Range {
                    min_bits: imps[i].value_bits,
                    max_bits: imps[i].max_value_bits,
                    property: implicit_name_in(m, imps[i]),
                })
        }),
{
}

/// The line of a unique modifier: a fixed value when it does not roll,
/// otherwise its range and the roll byte at its roll index (0 when `ir` is
/// too short); its property by name, "Unknown" when the name is unknown.
pub open spec fn unique_mod_line(m: ResolverModel, x: UniqueMod, ir: Seq<u8>) -> DetailView {
    let property = if m.properties.contains_key(x.property_id) {
        m.properties[x.property_id]
    } else {
        "Unknown"@
    };
    if x.can_roll {
        DetailView::Stat(StatLineView::Rolled {
            value_bits: x.value_bits,
            max_bits: x.max_value_bits,
            roll: if x.roll_id < ir.len() { ir[x.roll_id as int] } else { 0 },
            property,
        })
    } else {
        DetailView::Stat(StatLineView::Fixed { value_bits: x.value_bits, property })
    }
}

/// The detail of a known unique: the implicit lines of its base item (none
/// when the base item is unknown), then one line per modifier in order,
/// then its description lines; an unknown unique has no detail.
pub proof fn law_unique_detail_lines(m: ResolverModel, id: Seq<char>, ir: Seq<u8>)
    ensures
        !m.uniques.contains_key(id) ==> m.unique_detail(id, ir).len() == 0,
        m.uniques.contains_key(id) ==> ({
            let u = m.uniques[id];
            let key = base_item_key(u.base_type_id, u.sub_type_id);
            let imps = if m.base_items.contains_key(key) {
                m.base_items[key].implicits
            } else {
                Seq::empty()
            };
            let d = m.unique_detail(id, ir);
            let n = imps.len();
            let k = u.mods.len();
            &&& d.len() == n + k + m.tooltip_details(u.tooltip_descriptions).len()
            &&& forall|i: int|
                0 <= i < n ==> #[trigger] d[i] == DetailView::Stat(
                    StatLineView::Range {
                        min_bits: imps[i].value_bits,
                        max_bits: imps[i].max_value_bits,
                        property: implicit_name_in(m, imps[i]),
                    },
                )
            &&& forall|j: int| 0 <= j < k ==> #[trigger] d[n + j] == unique_mod_line(m, u.mods[j], ir)
            &&& d.subrange((n + k) as int, d.len() as int) == m.tooltip_details(u.tooltip_descriptions)
        }),
{
    if m.uniques.contains_key(id) {
        let u = m.uniques[id];
        let key = base_item_key(u.base_type_id, u.sub_type_id);
        let base = if m.base_items.contains_key(key) {
            m.implicit_lines(m.base_items[key].implicits).map_values(
                |l: StatLineView| DetailView::Stat(l),
            )
        } else {
            Seq::empty()
        };
        let mods = Seq::new(u.mods.len(), |i: int| m.mod_detail(u.mods[i], ir));
        let tips = m.tooltip_details(u.tooltip_descriptions);
        let d = m.unique_detail(id, ir);
        assert(d == base + mods + tips);
        assert(d.subrange((base.len() + mods.len()) as int, d.len() as int) =~= tips);
    }
}

/// `prefix + middle + suffix`.
fn concat3(prefix: &str, middle: &str, suffix: &str) -> (r: String)
    ensures
        r@ == prefix@ + middle@ + suffix@,
{
    let mut s = String::new();
    s.append(prefix);
    s.append(middle);
    s.append(suffix);
    proof {
        assert(s@ =~= prefix@ + middle@ + suffix@);
    }
    s
}

/// `"Skills.Skill_{a}_{b}{suffix}"`.
fn skill_key(a: &str, b: &str, suffix: &str) -> (r: String)
    ensures
        r@ == "Skills.Skill_"@ + a@ + "_"@ + b@ + suffix@,
{
    let mut s = String::new();
    s.append("Skills.Skill_");
    s.append(a);
    s.append("_");
    s.append(b);
    s.append(suffix);
    proof {
        assert(s@ =~= "Skills.Skill_"@ + a@ + "_"@ + b@ + suffix@);
    }
    s
}

/// The passive-translation key prefix of a class.
fn class_prefix_exec(class_id: u8) -> (r: Option<&'static str>)
    ensures
        match r {
            Some(p) => class_prefix(class_id) == Some(p@),
            None => class_prefix(class_id) is None,
        },
{
    if class_id == 0 {
        Some("pr")
    } else if class_id == 1 {
        Some("mg")
    } else if class_id == 2 {
        Some("se")
    } else if class_id == 3 {
        Some("ac")
    } else if class_id == 4 {
        Some("rg")
    } else {
        None
    }
}

impl Resolver {
    /// The translation of `key`, or `default`.
    fn translate_or(&self, key: &str, default: &str) -> (r: String)
        ensures
            r@ == lookup_or(self@.translations, key@, default@),
    {
        match self.translations.get(key) {
            Some(t) => t.clone(),
            None => default.to_owned(),
        }
    }

    /// The display name of an affix: its translated display-name key, the key
    /// itself when it has no translation, or the id when the affix is unknown.
    pub fn get_affix_name(&self, id: &str) -> (r: String)
        ensures
            r@ == self@.affix_name(id@),
    {
        match self.affix_map.get(id) {
            Some(data) => self.translate_or(data.display_name_key.as_str(), data.display_name_key.as_str()),
            None => id.to_owned(),
        }
    }

    /// A name key resolved through the translations directly: its
    /// translation, or the key itself.
    pub fn get_skill_name_bypassing(&self, key: &str) -> (r: String)
        ensures
            r@ == self@.name_bypassing(key@),
    {
        self.translate_or(key, key)
    }

    /// The display name of an ability.
    pub fn get_skill_name(&self, id: &str) -> (r: String)
        ensures
            r@ == self@.skill_name(id@),
    {
        let direct_key = skill_key(id, "0", "_Name");
        assert("Skills.Skill_"@ + id@ + "_"@ + "0"@ + "_Name"@ =~= "Skills.Skill_"@ + id@ + "_0_Name"@) by {
            reveal_strlit("_");
            reveal_strlit("0");
            reveal_strlit("_0_Name");
            reveal_strlit("_Name");
        }
        if let Some(trans) = self.translations.get(direct_key.as_str()) {
            return trans.clone();
        }
        if let Some(data) = self.ability_map.get(id) {
            if let Some(name) = &data.name {
                return name.clone();
            }
            if let Some(key) = &data.name_key {
                return self.translate_or(key.as_str(), key.as_str());
            }
        }
        id.to_owned()
    }

    /// The tag-free description of an ability.
    pub fn get_skill_description(&self, id: &str) -> (r: String)
        ensures
            r@ == self@.skill_description(id@),
    {
        if let Some(data) = self.ability_map.get(id) {
            if let Some(key) = &data.description_key {
                if let Some(trans) = self.translations.get(key.as_str()) {
                    return clean_html(trans.as_str());
                }
            }
        }
        let key = skill_key(id, "0", "_Description");
        assert("Skills.Skill_"@ + id@ + "_"@ + "0"@ + "_Description"@ =~= "Skills.Skill_"@ + id@
            + "_0_Description"@) by {
            reveal_strlit("_");
            reveal_strlit("0");
            reveal_strlit("_0_Description");
            reveal_strlit("_Description");
        }
        if let Some(trans) = self.translations.get(key.as_str()) {
            return clean_html(trans.as_str());
        }
        String::new()
    }

    /// Tag removal, as applied to every description.
    pub fn clean_html(&self, input: &str) -> (r: String)
        ensures
            r@ == stripped(input@),
    {
        clean_html(input)
    }

    /// The display name of a node of a skill tree.
    pub fn get_skill_node_name(&self, skill_id: &str, node_id: &str) -> (r: String)
        ensures
            r@ == self@.skill_node_name(skill_id@, node_id@),
    {
        let key = skill_key(skill_id, node_id, "_Name");
        let fallback = concat3("Node ", node_id, "");
        assert(fallback@ =~= "Node "@ + node_id@) by {
            reveal_strlit("");
        }
        self.translate_or(key.as_str(), fallback.as_str())
    }

    /// The tag-free description of a node of a skill tree.
    pub fn get_skill_node_description(&self, skill_id: &str, node_id: &str) -> (r: String)
        ensures
            r@ == self@.skill_node_description(skill_id@, node_id@),
    {
        let key = skill_key(skill_id, node_id, "_Description");
        match self.translations.get(key.as_str()) {
            Some(trans) => clean_html(trans.as_str()),
            None => String::new(),
        }
    }

    /// The display name of a node of a class passive tree.
    pub fn get_passive_name(&self, class_id: u8, node_id: u8) -> (r: String)
        ensures
            r@ == self@.passive_name(class_id, node_id),
    {
        let node = dec_text(node_id as u64);
        match class_prefix_exec(class_id) {
            None => {
                let mut s = String::new();
                s.append("Unknown Class ");
                append_dec(&mut s, class_id as u64);
                proof {
                    assert(s@ =~= "Unknown Class "@ + dec(class_id as nat));
                }
                s
            },
            Some(prefix) => {
                let p = concat3(prefix, "-1", "");
                let key = skill_key(p.as_str(), node.as_str(), "_Name");
                let fallback = concat3("Passive ", node.as_str(), "");
                assert(key@ =~= "Skills.Skill_"@ + prefix@ + "-1_"@ + dec(node_id as nat)
                    + "_Name"@) by {
                    reveal_strlit("");
                    reveal_strlit("-1");
                    reveal_strlit("_");
                    reveal_strlit("-1_");
                }
                assert(fallback@ =~= "Passive "@ + dec(node_id as nat)) by {
                    reveal_strlit("");
                }
                self.translate_or(key.as_str(), fallback.as_str())
            },
        }
    }

    /// The tag-free description of a node of a class passive tree.
    pub fn get_passive_description(&self, class_id: u8, node_id: u8) -> (r: String)
        ensures
            r@ == self@.passive_description(class_id, node_id),
    {
        let node = dec_text(node_id as u64);
        match class_prefix_exec(class_id) {
            None => String::new(),
            Some(prefix) => {
                let p = concat3(prefix, "-1", "");
                let key = skill_key(p.as_str(), node.as_str(), "_Description");
                assert(key@ =~= "Skills.Skill_"@ + prefix@ + "-1_"@ + dec(node_id as nat)
                    + "_Description"@) by {
                    reveal_strlit("");
                    reveal_strlit("-1");
                    reveal_strlit("_");
                    reveal_strlit("-1_");
                }
                match self.translations.get(key.as_str()) {
                    Some(trans) => clean_html(trans.as_str()),
                    None => String::new(),
                }
            },
        }
    }

    /// The display name of an item: a unique's name first, then a base
    /// item's, each translated when a translation exists; the id otherwise.
    pub fn get_item_name(&self, id: &str) -> (r: String)
        ensures
            r@ == self@.item_name(id@),
    {
        if let Some(key) = self.unique_map.get(id) {
            return self.translate_or(key.as_str(), key.as_str());
        }
        if let Some(key) = self.item_map.get(id) {
            return self.translate_or(key.as_str(), key.as_str());
        }
        id.to_owned()
    }

    /// The display name of a base type.
    pub fn get_base_type_name(&self, base_type_id: u32) -> (r: Option<&String>)
        ensures
            match r {
                Some(s) => self@.base_type_name(base_type_id) == Some(s@),
                None => self@.base_type_name(base_type_id) is None,
            },
    {
        self.base_type_name_map.get(&base_type_id)
    }

    /// The display name of the base type of an item.
    pub fn get_item_type_name(&self, id: &str) -> (r: Option<String>)
        ensures
            opt_view(r) == self@.item_type_name(id@),
    {
        if let Some(unique_data) = self.unique_data_map.get(id) {
            return match self.get_base_type_name(unique_data.base_type_id) {
                Some(s) => Some(s.clone()),
                None => None,
            };
        }
        if let Some(item_data) = self.item_data_map.get(id) {
            return match self.get_base_type_name(item_data.base_type_id) {
                Some(s) => Some(s.clone()),
                None => None,
            };
        }
        None
    }
}

impl Resolver {
    /// The numeric detail lines of an affix at a tier (1-based; 0 reads as
    /// the first tier) for a roll (an `f64` bit pattern): one line per roll
    /// of the tier, or none when the affix or the tier is unknown.
    pub fn get_affix_detail(&self, id: &str, tier: usize, roll_bits: u64) -> (r: Vec<StatLine>)
        ensures
            vseq(r@) == self@.affix_detail(id@, tier, roll_bits),
    {
        let mut parts: Vec<StatLine> = Vec::new();
        if let Some(data) = self.affix_map.get(id) {
            let tier_idx: usize = if tier > 0 {
                tier - 1
            } else {
                0
            };
            if tier_idx < data.tiers.len() {
                let rolls = &data.tiers[tier_idx].rolls;
                let ghost expected = self@.affix_detail(id@, tier, roll_bits);
                assert(self@.affixes[id@] == data@);
                assert(rolls@ == data@.tiers[tier_idx as int]);
                let mut i: usize = 0;
                while i < rolls.len()
                    invariant
                        i <= rolls@.len(),
                        expected == self@.affix_detail(id@, tier, roll_bits),
                        self@.affixes.contains_key(id@),
                        self@.affixes[id@] == data@,
                        tier_idx == (if tier > 0 {
                            tier - 1
                        } else {
                            0
                        }),
                        tier_idx < data@.tiers.len(),
                        rolls@ == data@.tiers[tier_idx as int],
                        expected.len() == rolls@.len(),
                        parts@.len() == i,
                        forall|j: int| 0 <= j < i ==> #[trigger] parts@[j]@ == expected[j],
                    decreases rolls.len() - i,
                {
                    let prop_key: &str = if i < data.properties.len() {
                        data.properties[i].as_str()
                    } else {
                        ""
                    };
                    proof {
                        reveal_strlit("");
                        if i < data.properties.len() {
                            assert(views(data.properties@)[i as int] == data.properties@[i as int]@);
                        }
                    }
                    let property = self.translate_or(prop_key, "Unknown Property");
                    let line = StatLine::AffixRoll {
                        tier,
                        min_bits: rolls[i].min_bits,
                        max_bits: rolls[i].max_bits,
                        roll_bits,
                        property,
                    };
                    proof {
                        let a = self@.affixes[id@];
                        assert(a.tiers[tier_idx as int] == rolls@);
                        assert(a.properties.len() == data.properties@.len());
                        assert(prop_key@ == (if (i as int) < a.properties.len() {
                            a.properties[i as int]
                        } else {
                            Seq::empty()
                        }));
                        assert(property@ == self@.affix_property_name(a, i as int));
                        assert(expected[i as int] == StatLineView::AffixRoll {
                            tier: tier,
                            min_bits: rolls@[i as int].min_bits,
                            max_bits: rolls@[i as int].max_bits,
                            roll_bits: roll_bits,
                            property: self@.affix_property_name(a, i as int),
                        });
                        assert(line@ == expected[i as int]);
                    }
                    parts.push(line);
                    i += 1;
                }
                proof {
                    assert(vseq(parts@) =~= expected);
                }
                return parts;
            }
        }
        proof {
            assert(vseq(parts@) =~= self@.affix_detail(id@, tier, roll_bits));
        }
        parts
    }

    fn implicit_line(&self, imp: &ImplicitData) -> (r: StatLine)
        ensures
            r@ == self@.implicit_line(*imp),
    {
        let property = if imp.property_id == 98 {
            match self.player_property_map.get(&imp.tags) {
                Some(s) => s.clone(),
                None => "Unknown Player Property".to_owned(),
            }
        } else {
            match self.property_map.get(&imp.property_id) {
                Some(s) => s.clone(),
                None => "Unknown Property".to_owned(),
            }
        };
        StatLine::Range { min_bits: imp.value_bits, max_bits: imp.max_value_bits, property }
    }

    fn implicit_lines(&self, imps: &Vec<ImplicitData>) -> (r: Vec<StatLine>)
        ensures
            vseq(r@) == self@.implicit_lines(imps@),
    {
        let mut parts: Vec<StatLine> = Vec::new();
        let mut i: usize = 0;
        while i < imps.len()
            invariant
                i <= imps@.len(),
                parts@.len() == i,
                forall|j: int| 0 <= j < i ==> #[trigger] parts@[j]@ == self@.implicit_line(imps@[j]),
            decreases imps.len() - i,
        {
            parts.push(self.implicit_line(&imps[i]));
            i += 1;
        }
        proof {
            assert(vseq(parts@) =~= self@.implicit_lines(imps@));
        }
        parts
    }

    /// The implicit lines of a base item, or none when the item is unknown.
    pub fn get_item_implicits(&self, id: &str) -> (r: Vec<StatLine>)
        ensures
            vseq(r@) == self@.item_implicits(id@),
    {
        match self.item_data_map.get(id) {
            Some(data) => self.implicit_lines(&data.implicits),
            None => {
                let parts: Vec<StatLine> = Vec::new();
                proof {
                    assert(vseq(parts@) =~= self@.item_implicits(id@));
                }
                parts
            },
        }
    }

    fn mod_detail(&self, m: &UniqueMod, ir: &[u8]) -> (r: Detail)
        ensures
            r@ == self@.mod_detail(*m, ir@),
    {
        let property = match self.property_map.get(&m.property_id) {
            Some(s) => s.clone(),
            None => "Unknown".to_owned(),
        };
        if !m.can_roll {
            Detail::Stat(StatLine::Fixed { value_bits: m.value_bits, property })
        } else {
            let roll: u8 = if m.roll_id < ir.len() {
                ir[m.roll_id]
            } else {
                0
            };
            Detail::Stat(
                StatLine::Rolled {
                    value_bits: m.value_bits,
                    max_bits: m.max_value_bits,
                    roll,
                    property,
                },
            )
        }
    }

    /// The detail lines of a unique item: the implicits of its base item,
    /// then one line per modifier (rolled ones read their roll byte from `ir`,
    /// 0 when missing), then its translated descriptions; none when the item
    /// is not a known unique.
    pub fn get_unique_detail(&self, id: &str, ir: &[u8]) -> (r: Vec<Detail>)
        ensures
            vseq(r@) == self@.unique_detail(id@, ir@),
    {
        let mut details: Vec<Detail> = Vec::new();
        let data = match self.unique_data_map.get(id) {
            Some(d) => d,
            None => {
                proof {
                    assert(vseq(details@) =~= self@.unique_detail(id@, ir@));
                }
                return details;
            },
        };
        let ghost u = self@.uniques[id@];
        assert(u == data@);
        let key: u64 = data.base_type_id as u64 * 4294967296 + data.sub_type_id as u64;
        let ghost base: Seq<DetailView> = if self@.base_items.contains_key(key) {
            self@.implicit_lines(self@.base_items[key].implicits).map_values(
                |l: StatLineView| DetailView::Stat(l),
            )
        } else {
            Seq::empty()
        };
        if let Some(base_data) = self.base_item_map.get(&key) {
            let lines = self.implicit_lines(&base_data.implicits);
            let mut i: usize = 0;
            while i < lines.len()
                invariant
                    i <= lines@.len(),
                    vseq(lines@) == self@.implicit_lines(base_data@.implicits),
                    self@.base_items.contains_key(key),
                    self@.base_items[key] == base_data@,
                    base == self@.implicit_lines(self@.base_items[key].implicits).map_values(
                        |l: StatLineView| DetailView::Stat(l),
                    ),
                    vseq(details@) =~= base.take(i as int),
                decreases lines.len() - i,
            {
                let ghost l = lines@[i as int];
                assert(vseq(lines@)[i as int] == l@);
                let ghost old_d = details@;
                let d = Detail::Stat(lines[i].copy_line());
                details.push(d);
                proof {
                    lemma_vseq_push(old_d, d);
                }
                i += 1;
                proof {
                    assert(vseq(details@) =~= base.take(i as int));
                }
            }
            proof {
                assert(base.take(lines@.len() as int) =~= base);
            }
        } else {
            proof {
                assert(vseq(details@) =~= base);
            }
        }
        let mut i: usize = 0;
        while i < data.mods.len()
            invariant
                i <= data.mods@.len(),
                u == data@,
                vseq(details@) =~= base + Seq::new(i as nat, |j: int| self@.mod_detail(u.mods[j], ir@)),
            decreases data.mods.len() - i,
        {
            let ghost old_d = details@;
            let d = self.mod_detail(&data.mods[i], ir);
            details.push(d);
            proof {
                lemma_vseq_push(old_d, d);
            }
            i += 1;
            proof {
                assert(vseq(details@) =~= base + Seq::new(i as nat, |j: int| self@.mod_detail(u.mods[j], ir@)));
            }
        }
        let ghost with_mods = vseq(details@);
        let mut i: usize = 0;
        while i < data.tooltip_descriptions.len()
            invariant
                i <= data.tooltip_descriptions@.len(),
                u == data@,
                vseq(details@) =~= with_mods + self@.tooltip_details(u.tooltip_descriptions.take(i as int)),
            decreases data.tooltip_descriptions.len() - i,
        {
            proof {
                assert(u.tooltip_descriptions.take(i + 1).drop_last() =~= u.tooltip_descriptions.take(i as int));
                assert(u.tooltip_descriptions.take(i + 1).last() == data.tooltip_descriptions@[i as int]@);
            }
            if let Some(trans) = self.translations.get(data.tooltip_descriptions[i].as_str()) {
                let ghost old_d = details@;
                let d = Detail::Text(clean_html(trans.as_str()));
                details.push(d);
                proof {
                    lemma_vseq_push(old_d, d);
                }
            }
            i += 1;
            proof {
                assert(vseq(details@) =~= with_mods + self@.tooltip_details(u.tooltip_descriptions.take(i as int)));
            }
        }
        proof {
            assert(u.tooltip_descriptions.take(u.tooltip_descriptions.len() as int) =~= u.tooltip_descriptions);
            assert(vseq(details@) =~= self@.unique_detail(id@, ir@));
        }
        details
    }
}

impl StatLine {
    /// A copy of this line.
    pub fn copy_line(&self) -> (r: StatLine)
        ensures
            r@ == self@,
    {
        match self {
            StatLine::AffixRoll { tier, min_bits, max_bits, roll_bits, property } =>
                StatLine::AffixRoll {
                tier: *tier,
                min_bits: *min_bits,
                max_bits: *max_bits,
                roll_bits: *roll_bits,
                property: property.clone(),
            },
            StatLine::Range { min_bits, max_bits, property } => StatLine::Range {
                min_bits: *min_bits,
                max_bits: *max_bits,
                property: property.clone(),
            },
            StatLine::Fixed { value_bits, property } => StatLine::Fixed {
                value_bits: *value_bits,
                property: property.clone(),
            },
            StatLine::Rolled { value_bits, max_bits, roll, property } => StatLine::Rolled {
                value_bits: *value_bits,
                max_bits: *max_bits,
                roll: *roll,
                property: property.clone(),
            },
        }
    }
}

/// The built-in property names.
fn init_property_map() -> (m: HashMapWithView<u32, String>)
    ensures
        vmap(m@) == default_properties(),
{
    let mut m: HashMapWithView<u32, String> = HashMapWithView::new();
    let mut i: usize = 0;
    while i < 125
        invariant
            i <= 125,
            vmap(m@) == Map::new(|k: u32| k < i, |k: u32| PROPERTY_NAMES@[k as int]@),
        decreases 125 - i,
    {
        let ghost old_m = m@;
        let name = PROPERTY_NAMES[i].to_owned();
        m.insert(i as u32, name);
        proof {
            lemma_vmap_insert(old_m, i as u32, name);
            assert(vmap(m@) =~= Map::new(|k: u32| k < i + 1, |k: u32| PROPERTY_NAMES@[k as int]@));
        }
        i += 1;
    }
    proof {
        assert(vmap(m@) =~= default_properties());
    }
    m
}

impl Resolver {
    /// A resolver with the built-in property names and nothing else.
    fn empty() -> (r: Resolver)
        ensures
            r@ == initial_model(),
    {
        let r = Resolver {
            translations: StringHashMap::new(),
            affix_map: StringHashMap::new(),
            ability_map: StringHashMap::new(),
            item_map: StringHashMap::new(),
            item_data_map: StringHashMap::new(),
            base_item_map: HashMapWithView::new(),
            unique_map: StringHashMap::new(),
            unique_data_map: StringHashMap::new(),
            property_map: init_property_map(),
            player_property_map: HashMapWithView::new(),
            base_type_name_map: HashMapWithView::new(),
        };
        proof {
            assert(r@ =~= initial_model());
        }
        r
    }

    /// A resolver loaded from the game documents that were found: the
    /// translations, the core database, the item database and the abilities
    /// (a document that is absent is skipped).
    pub fn new(
        translations: Option<&Json>,
        core_db: Option<&Json>,
        item_db: Option<&Json>,
        abilities: Option<&Json>,
    ) -> (r: Resolver)
        ensures
            r@ == resolver_loaded(
                opt_json(translations),
                opt_json(core_db),
                opt_json(item_db),
                opt_json(abilities),
            ),
    {
        let mut r = Resolver::empty();
        if let Some(d) = translations {
            r.load_translations(d);
        }
        if let Some(d) = core_db {
            r.load_properties(d);
        }
        if let Some(d) = item_db {
            r.load_affixes(d);
        }
        if let Some(d) = item_db {
            r.load_items(d);
        }
        if let Some(d) = item_db {
            r.load_uniques(d);
        }
        if let Some(d) = abilities {
            r.load_abilities(d);
        }
        r
    }

    fn insert_string_members(&mut self, es: &Vec<(String, Json)>)
        ensures
            final(self)@ == (ResolverModel {
                translations: insert_strings(old(self)@.translations, es@),
                ..old(self)@
            }),
    {
        let ghost m0 = self@;
        let mut i: usize = 0;
        while i < es.len()
            invariant
                i <= es@.len(),
                self@ == (ResolverModel {
                    translations: insert_strings(m0.translations, es@.take(i as int)),
                    ..m0
                }),
            decreases es.len() - i,
        {
            proof {
                assert(es@.take(i + 1).drop_last() =~= es@.take(i as int));
                assert(es@.take(i + 1).last() == es@[i as int]);
            }
            if let Json::Str(v) = &es[i].1 {
                let ghost old_t = self.translations@;
                let k = es[i].0.clone();
                let v2 = v.clone();
                self.translations.insert(k, v2);
                proof {
                    lemma_vmap_insert(old_t, k@, v2);
                }
            }
            proof {
                assert(self@ =~= ResolverModel {
                    translations: insert_strings(m0.translations, es@.take(i + 1)),
                    ..m0
                });
            }
            i += 1;
        }
        proof {
            assert(es@.take(es@.len() as int) =~= es@);
        }
    }

    fn load_translations(&mut self, doc: &Json)
        ensures
            final(self)@ == translations_loaded(old(self)@, *doc),
    {
        if let Json::Object(es) = doc {
            if let Some(full) = as_object_of(doc.get("full")) {
                self.insert_string_members(full);
            }
            self.insert_string_members(es);
        }
    }

    fn property_step(&mut self, item: &Json)
        ensures
            final(self)@ == property_step(old(self)@, *item),
    {
        if let Some(id) = as_u64_of(item.get("property")) {
            if let Some(key) = as_str_of(item.get("propertyNameKey")) {
                let name = self.translate_or(key.as_str(), key.as_str());
                let ghost old_p = self.property_map@;
                #[verifier::truncate]
                let k = id as u32;
                self.property_map.insert(k, name);
                proof {
                    lemma_vmap_insert(old_p, k, name);
                    assert(self@ =~= property_step(old(self)@, *item));
                }
            }
        }
    }

    fn player_property_step(&mut self, i: usize, item: &Json)
        ensures
            final(self)@ == (match jstr(json_get(*item, "propertyNameKey"@)) {
                Some(k) => ResolverModel {
                    player_properties: old(self)@.player_properties.insert(
                        i as u32,
                        lookup_or(old(self)@.translations, k, k),
                    ),
                    ..old(self)@
                },
                None => old(self)@,
            }),
    {
        if let Some(key) = as_str_of(item.get("propertyNameKey")) {
            let name = self.translate_or(key.as_str(), key.as_str());
            let ghost old_p = self.player_property_map@;
            #[verifier::truncate]
            let k = i as u32;
            self.player_property_map.insert(k, name);
            proof {
                lemma_vmap_insert(old_p, k, name);
                assert(self@ =~= ResolverModel {
                    player_properties: old(self)@.player_properties.insert(
                        i as u32,
                        lookup_or(old(self)@.translations, key@, key@),
                    ),
                    ..old(self)@
                });
            }
        }
    }

    fn load_properties(&mut self, doc: &Json)
        ensures
            final(self)@ == properties_loaded(old(self)@, *doc),
    {
        let ghost m0 = self@;
        if let Some(list) = as_array_of(doc.get("propertyList")) {
            let mut i: usize = 0;
            while i < list.len()
                invariant
                    i <= list@.len(),
                    self@ == property_steps(m0, list@.take(i as int)),
                decreases list.len() - i,
            {
                proof {
                    assert(list@.take(i + 1).drop_last() =~= list@.take(i as int));
                    assert(list@.take(i + 1).last() == list@[i as int]);
                }
                self.property_step(&list[i]);
                i += 1;
            }
            proof {
                assert(list@.take(list@.len() as int) =~= list@);
            }
        }
        let ghost m1 = self@;
        if let Some(list) = as_array_of(doc.get("playerPropertyList")) {
            let mut i: usize = 0;
            while i < list.len()
                invariant
                    i <= list@.len(),
                    self@ == player_property_steps(m1, list@.take(i as int)),
                decreases list.len() - i,
            {
                proof {
                    assert(list@.take(i + 1).drop_last() =~= list@.take(i as int));
                    assert(list@.take(i + 1).last() == list@[i as int]);
                }
                self.player_property_step(i, &list[i]);
                i += 1;
            }
            proof {
                assert(list@.take(list@.len() as int) =~= list@);
            }
        }
    }

    fn implicits_from(sub: &Json) -> (r: Vec<ImplicitData>)
        ensures
            r@ == implicits_of(*sub),
    {
        let mut out: Vec<ImplicitData> = Vec::new();
        if let Some(arr) = as_array_of(sub.get("implicits")) {
            let mut i: usize = 0;
            while i < arr.len()
                invariant
                    i <= arr@.len(),
                    out@ =~= arr@.take(i as int).map_values(|imp: Json| implicit_of(imp)),
                decreases arr.len() - i,
            {
                let imp = &arr[i];
                #[verifier::truncate]
                let property_id = match as_u64_of(imp.get("property")) {
                    Some(v) => v,
                    None => 0,
                } as u32;
                #[verifier::truncate]
                let tags = match as_u64_of(imp.get("tags")) {
                    Some(v) => v,
                    None => 0,
                } as u32;
                let value_bits = match as_f64_bits_of(imp.get("implicitValue")) {
                    Some(v) => v,
                    None => 0,
                };
                let max_value_bits = match as_f64_bits_of(imp.get("implicitMaxValue")) {
                    Some(v) => v,
                    None => 0,
                };
                out.push(ImplicitData { property_id, tags, value_bits, max_value_bits });
                i += 1;
                proof {
                    assert(out@ =~= arr@.take(i as int).map_values(|imp: Json| implicit_of(imp)));
                }
            }
            proof {
                assert(arr@.take(arr@.len() as int) =~= arr@);
            }
        }
        out
    }

    fn sub_item_step(&mut self, base: u32, sub: &Json)
        ensures
            final(self)@ == sub_item_step(old(self)@, base, *sub),
    {
        if let Some(id) = as_str_of(sub.get("id")) {
            if let Some(key) = as_str_of(sub.get("displayNameKey")) {
                let ghost old_k = self.item_map@;
                let v = key.clone();
                self.item_map.insert(id.clone(), v);
                proof {
                    lemma_vmap_insert(old_k, id@, v);
                }
            }
            let ghost m1 = self@;
            let implicits = Resolver::implicits_from(sub);
            let mut copy: Vec<ImplicitData> = Vec::new();
            let mut i: usize = 0;
            while i < implicits.len()
                invariant
                    i <= implicits@.len(),
                    copy@ == implicits@.take(i as int),
                decreases implicits.len() - i,
            {
                copy.push(implicits[i]);
                i += 1;
                proof {
                    assert(copy@ =~= implicits@.take(i as int));
                }
            }
            proof {
                assert(implicits@.take(implicits@.len() as int) =~= implicits@);
            }
            let data = ItemData { base_type_id: base, implicits };
            let data2 = ItemData { base_type_id: base, implicits: copy };
            let ghost old_d = self.item_data_map@;
            self.item_data_map.insert(id.clone(), data);
            let sub_type_id = parse_u32_or_zero(id.as_str());
            let key: u64 = base as u64 * 4294967296 + sub_type_id as u64;
            let ghost old_b = self.base_item_map@;
            self.base_item_map.insert(key, data2);
            proof {
                lemma_vmap_insert(old_d, id@, data);
                lemma_vmap_insert(old_b, key, data2);
                assert(self@ =~= sub_item_step(old(self)@, base, *sub));
            }
        }
    }

    fn sub_item_steps(&mut self, base: u32, subs: &Vec<Json>)
        ensures
            final(self)@ == sub_item_steps(old(self)@, base, subs@),
    {
        let ghost m0 = self@;
        let mut i: usize = 0;
        while i < subs.len()
            invariant
                i <= subs@.len(),
                self@ == sub_item_steps(m0, base, subs@.take(i as int)),
            decreases subs.len() - i,
        {
            proof {
                assert(subs@.take(i + 1).drop_last() =~= subs@.take(i as int));
                assert(subs@.take(i + 1).last() == subs@[i as int]);
            }
            self.sub_item_step(base, &subs[i]);
            i += 1;
        }
        proof {
            assert(subs@.take(subs@.len() as int) =~= subs@);
        }
    }

    fn sub_item_member_steps(&mut self, base: u32, es: &Vec<(String, Json)>)
        ensures
            final(self)@ == sub_item_steps(old(self)@, base, member_values(es@)),
    {
        let ghost m0 = self@;
        let ghost vs = member_values(es@);
        let mut i: usize = 0;
        while i < es.len()
            invariant
                i <= es@.len(),
                vs == member_values(es@),
                self@ == sub_item_steps(m0, base, vs.take(i as int)),
            decreases es.len() - i,
        {
            proof {
                assert(vs.take(i + 1).drop_last() =~= vs.take(i as int));
                assert(vs.take(i + 1).last() == es@[i as int].1);
            }
            self.sub_item_step(base, &es[i].1);
            i += 1;
        }
        proof {
            assert(vs.take(es@.len() as int) =~= vs);
        }
    }

    fn base_type_step(&mut self, key: &String, bt: &Json)
        ensures
            final(self)@ == base_type_step(old(self)@, key@, *bt),
    {
        let base = parse_u32_or_zero(key.as_str());
        if let Some(dk) = as_str_of(bt.get("displayNameKey")) {
            if let Some(t) = self.translations.get(dk.as_str()) {
                let ghost old_n = self.base_type_name_map@;
                let v = t.clone();
                self.base_type_name_map.insert(base, v);
                proof {
                    lemma_vmap_insert(old_n, base, v);
                    assert(self@ =~= ResolverModel {
                        base_type_names: old(self)@.base_type_names.insert(base, old(self)@.translations[dk@]),
                        ..old(self)@
                    });
                }
            }
        }
        if let Some(subs) = as_array_of(bt.get("subItems")) {
            self.sub_item_steps(base, subs);
        }
        if let Some(es) = as_object_of(bt.get("subItems")) {
            self.sub_item_member_steps(base, es);
        }
    }

    fn load_category(&mut self, list: &Vec<(String, Json)>, doc: &Json, name: &str)
        requires
            jobj(json_get(*doc, "itemList"@)) == Some(list@),
        ensures
            final(self)@ == category_loaded(old(self)@, list@, name@),
    {
        let cat = get_in(doc.get("itemList"), name);
        if let Some(es) = as_object_of(cat) {
            let ghost m0 = self@;
            let mut i: usize = 0;
            while i < es.len()
                invariant
                    i <= es@.len(),
                    self@ == base_type_steps(m0, es@.take(i as int)),
                decreases es.len() - i,
            {
                proof {
                    assert(es@.take(i + 1).drop_last() =~= es@.take(i as int));
                    assert(es@.take(i + 1).last() == es@[i as int]);
                }
                self.base_type_step(&es[i].0, &es[i].1);
                i += 1;
            }
            proof {
                assert(es@.take(es@.len() as int) =~= es@);
            }
        }
    }

    fn load_items(&mut self, doc: &Json)
        ensures
            final(self)@ == items_loaded(old(self)@, *doc),
    {
        if let Some(list) = as_object_of(doc.get("itemList")) {
            self.load_category(list, doc, "equippable");
            self.load_category(list, doc, "nonEquippable");
        }
    }

    fn unique_step(&mut self, v: &Json)
        ensures
            final(self)@ == unique_step(old(self)@, *v),
    {
        if let Some(id) = as_str_of(v.get("id")) {
            if let Some(key) = as_str_of(v.get("displayNameKey")) {
                let ghost old_k = self.unique_map@;
                let k2 = key.clone();
                self.unique_map.insert(id.clone(), k2);
                proof {
                    lemma_vmap_insert(old_k, id@, k2);
                }
            }
            #[verifier::truncate]
            let base_type_id = match as_u64_of(v.get("baseTypeId")) {
                Some(x) => x,
                None => 0,
            } as u32;
            #[verifier::truncate]
            let sub_type_id = match as_u64_of(v.get("subTypeId")) {
                Some(x) => x,
                None => 0,
            } as u32;
            let mut mods: Vec<UniqueMod> = Vec::new();
            if let Some(arr) = as_array_of(v.get("mods")) {
                let mut i: usize = 0;
                while i < arr.len()
                    invariant
                        i <= arr@.len(),
                        mods@ =~= arr@.take(i as int).map_values(|x: Json| mod_of(x)),
                    decreases arr.len() - i,
                {
                    let x = &arr[i];
                    #[verifier::truncate]
                    let property_id = match as_u64_of(x.get("property")) {
                        Some(a) => a,
                        None => 0,
                    } as u32;
                    let value_bits = match as_f64_bits_of(x.get("value")) {
                        Some(a) => a,
                        None => 0,
                    };
                    let max_value_bits = match as_f64_bits_of(x.get("maxValue")) {
                        Some(a) => a,
                        None => 0,
                    };
                    #[verifier::truncate]
                    let roll_id = match as_u64_of(x.get("rollId")) {
                        Some(a) => a,
                        None => 0,
                    } as usize;
                    let can_roll = match as_u64_of(x.get("canRoll")) {
                        Some(a) => a,
                        None => 0,
                    } == 1;
                    mods.push(UniqueMod { property_id, value_bits, max_value_bits, roll_id, can_roll });
                    i += 1;
                    proof {
                        assert(mods@ =~= arr@.take(i as int).map_values(|x: Json| mod_of(x)));
                    }
                }
                proof {
                    assert(arr@.take(arr@.len() as int) =~= arr@);
                }
            }
            let mut tooltip_descriptions: Vec<String> = Vec::new();
            if let Some(arr) = as_array_of(v.get("tooltipDescriptions")) {
                let mut i: usize = 0;
                while i < arr.len()
                    invariant
                        i <= arr@.len(),
                        views(tooltip_descriptions@) =~= description_keys(arr@.take(i as int)),
                    decreases arr.len() - i,
                {
                    proof {
                        assert(arr@.take(i + 1).drop_last() =~= arr@.take(i as int));
                        assert(arr@.take(i + 1).last() == arr@[i as int]);
                    }
                    if let Some(key) = as_str_of(arr[i].get("descriptionKey")) {
                        tooltip_descriptions.push(key.clone());
                    }
                    i += 1;
                    proof {
                        assert(views(tooltip_descriptions@) =~= description_keys(arr@.take(i as int)));
                    }
                }
                proof {
                    assert(arr@.take(arr@.len() as int) =~= arr@);
                }
            }
            let data = UniqueData { base_type_id, sub_type_id, mods, tooltip_descriptions };
            let ghost old_u = self.unique_data_map@;
            self.unique_data_map.insert(id.clone(), data);
            proof {
                lemma_vmap_insert(old_u, id@, data);
                assert(data@.mods =~= unique_of(*v).mods);
                assert(data@.tooltip_descriptions =~= unique_of(*v).tooltip_descriptions);
                assert(data@ =~= unique_of(*v));
                assert(self@ =~= unique_step(old(self)@, *v));
            }
        }
    }

    fn load_uniques(&mut self, doc: &Json)
        ensures
            final(self)@ == uniques_loaded(old(self)@, *doc),
    {
        if let Some(es) = as_object_of(get_in(doc.get("uniqueList"), "uniques")) {
            let ghost m0 = self@;
            let ghost vs = member_values(es@);
            let mut i: usize = 0;
            while i < es.len()
                invariant
                    i <= es@.len(),
                    vs == member_values(es@),
                    self@ == unique_steps(m0, vs.take(i as int)),
                decreases es.len() - i,
            {
                proof {
                    assert(vs.take(i + 1).drop_last() =~= vs.take(i as int));
                    assert(vs.take(i + 1).last() == es@[i as int].1);
                }
                self.unique_step(&es[i].1);
                i += 1;
            }
            proof {
                assert(vs.take(es@.len() as int) =~= vs);
            }
        }
    }

    fn affix_step(&mut self, v: &Json)
        ensures
            final(self)@ == affix_step(old(self)@, *v),
    {
        if let Json::Object(_) = v {
            if let Some(id) = as_str_of(v.get("id")) {
                let display_name_key = match as_str_of(v.get("affixDisplayNameKey")) {
                    Some(k) => k.clone(),
                    None => String::new(),
                };
                let mut properties: Vec<String> = Vec::new();
                if let Some(arr) = as_array_of(v.get("affixProperties")) {
                    let mut i: usize = 0;
                    while i < arr.len()
                        invariant
                            i <= arr@.len(),
                            views(properties@) =~= arr@.take(i as int).map_values(
                                |p: Json| affix_property_key(p),
                            ),
                        decreases arr.len() - i,
                    {
                        let key = match as_str_of(arr[i].get("modDisplayNameKey")) {
                            Some(k) => k.clone(),
                            None => String::new(),
                        };
                        assert(key@ == affix_property_key(arr@[i as int]));
                        let ghost old_p = properties@;
                        properties.push(key);
                        proof {
                            assert(views(old_p.push(key)) =~= views(old_p).push(key@));
                        }
                        i += 1;
                        proof {
                            assert(views(properties@) =~= arr@.take(i as int).map_values(
                                |p: Json| affix_property_key(p),
                            ));
                        }
                    }
                    proof {
                        assert(arr@.take(arr@.len() as int) =~= arr@);
                    }
                }
                let mut tiers: Vec<TierData> = Vec::new();
                if let Some(arr) = as_array_of(v.get("tiers")) {
                    let mut i: usize = 0;
                    while i < arr.len()
                        invariant
                            i <= arr@.len(),
                            tiers@.map_values(|t: TierData| t@) =~= arr@.take(i as int).map_values(
                                |t: Json| tier_of(t),
                            ),
                        decreases arr.len() - i,
                    {
                        let mut rolls: Vec<RollData> = Vec::new();
                        if let Some(rs) = as_array_of(arr[i].get("rolls")) {
                            let mut j: usize = 0;
                            while j < rs.len()
                                invariant
                                    j <= rs@.len(),
                                    rolls@ =~= rs@.take(j as int).map_values(|r: Json| roll_of(r)),
                                decreases rs.len() - j,
                            {
                                let min_bits = match as_f64_bits_of(rs[j].get("min")) {
                                    Some(a) => a,
                                    None => 0,
                                };
                                let max_bits = match as_f64_bits_of(rs[j].get("max")) {
                                    Some(a) => a,
                                    None => 0,
                                };
                                rolls.push(RollData { min_bits, max_bits });
                                j += 1;
                                proof {
                                    assert(rolls@ =~= rs@.take(j as int).map_values(|r: Json| roll_of(r)));
                                }
                            }
                            proof {
                                assert(rs@.take(rs@.len() as int) =~= rs@);
                            }
                        }
                        let t = TierData { rolls };
                        proof {
                            assert(t@ =~= tier_of(arr@[i as int]));
                        }
                        let ghost old_t = tiers@;
                        tiers.push(t);
                        proof {
                            assert(old_t.push(t).map_values(|t: TierData| t@) =~= old_t.map_values(|t: TierData| t@).push(t@));
                        }
                        i += 1;
                        proof {
                            assert(tiers@.map_values(|t: TierData| t@) =~= arr@.take(i as int).map_values(
                                |t: Json| tier_of(t),
                            ));
                        }
                    }
                    proof {
                        assert(arr@.take(arr@.len() as int) =~= arr@);
                    }
                }
                let data = AffixData { display_name_key, properties, tiers };
                let ghost old_a = self.affix_map@;
                self.affix_map.insert(id.clone(), data);
                proof {
                    lemma_vmap_insert(old_a, id@, data);
                    assert(data@.display_name_key == affix_of(*v).display_name_key);
                    assert(data@.properties =~= affix_of(*v).properties);
                    assert(data@.tiers =~= affix_of(*v).tiers);
                    assert(data@ =~= affix_of(*v));
                    assert(self@ =~= affix_step(old(self)@, *v));
                }
            }
        }
    }

    fn load_affix_group(&mut self, list: &Vec<(String, Json)>, doc: &Json, name: &str)
        requires
            jobj(json_get(*doc, "affixList"@)) == Some(list@),
        ensures
            final(self)@ == affix_group_loaded(old(self)@, list@, name@),
    {
        if let Some(es) = as_object_of(get_in(doc.get("affixList"), name)) {
            let ghost m0 = self@;
            let ghost vs = member_values(es@);
            let mut i: usize = 0;
            while i < es.len()
                invariant
                    i <= es@.len(),
                    vs == member_values(es@),
                    self@ == affix_steps(m0, vs.take(i as int)),
                decreases es.len() - i,
            {
                proof {
                    assert(vs.take(i + 1).drop_last() =~= vs.take(i as int));
                    assert(vs.take(i + 1).last() == es@[i as int].1);
                }
                self.affix_step(&es[i].1);
                i += 1;
            }
            proof {
                assert(vs.take(es@.len() as int) =~= vs);
            }
        }
    }

    fn load_affixes(&mut self, doc: &Json)
        ensures
            final(self)@ == affixes_loaded(old(self)@, *doc),
    {
        if let Some(list) = as_object_of(doc.get("affixList")) {
            self.load_affix_group(list, doc, "singleAffixes");
            self.load_affix_group(list, doc, "multiAffixes");
        }
    }

    fn load_abilities(&mut self, doc: &Json)
        ensures
            final(self)@ == abilities_loaded(old(self)@, *doc),
    {
        if let Json::Object(es) = doc {
            let ghost m0 = self@;
            let mut i: usize = 0;
            while i < es.len()
                invariant
                    i <= es@.len(),
                    self@ == ability_steps(m0, es@.take(i as int)),
                decreases es.len() - i,
            {
                proof {
                    assert(es@.take(i + 1).drop_last() =~= es@.take(i as int));
                    assert(es@.take(i + 1).last() == es@[i as int]);
                }
                let value = &es[i].1;
                if let Json::Object(_) = value {
                    let name = match as_str_of(value.get("name")) {
                        Some(x) => Some(x.clone()),
                        None => None,
                    };
                    let name_key = match as_str_of(value.get("nameKey")) {
                        Some(x) => Some(x.clone()),
                        None => None,
                    };
                    let description_key = match as_str_of(value.get("descriptionKey")) {
                        Some(x) => Some(x.clone()),
                        None => None,
                    };
                    let data = AbilityData { name, name_key, description_key };
                    let ghost old_a = self.ability_map@;
                    self.ability_map.insert(es[i].0.clone(), data);
                    proof {
                        lemma_vmap_insert(old_a, es@[i as int].0@, data);
                        assert(data@ =~= ability_of(*value));
                    }
                }
                proof {
                    assert(self@ =~= ability_steps(m0, es@.take(i + 1)));
                }
                i += 1;
            }
            proof {
                assert(es@.take(es@.len() as int) =~= es@);
            }
        }
    }
}

// ---------------------------------------------------------------- laws

/// The description keys of a unique are taken one after another, in order.
/// The result for two runs joined is the results joined.
pub proof fn law_description_keys_concatenate(s: Seq<Json>, t: Seq<Json>)
    ensures
        description_keys(s + t) == description_keys(s) + description_keys(t),
    decreases t.len(),
{
    if t.len() == 0 {
        assert(s + t =~= s);
        assert(description_keys(s) + description_keys(t) =~= description_keys(s));
    } else {
        law_description_keys_concatenate(s, t.drop_last());
        assert((s + t).drop_last() =~= s + t.drop_last());
        assert((s + t).last() == t.last());
        assert(description_keys(s + t) =~= description_keys(s) + description_keys(t));
    }
}

} // verus!
